//! Entries kept in the order of their names, one per name.
use vstd::prelude::*;
use crate::entries::{lemma_slot, lemma_slot_unique, lookup};
use crate::text::{before, comes_before, same_text};

verus! {

/// How many of the leading entries have a name before this one.
pub open spec fn position<V>(entries: Seq<(Seq<char>, V)>, name: Seq<char>) -> int
    decreases entries.len(),
{
    if entries.len() > 0 && before(entries[0].0, name) {
        1 + position(entries.skip(1), name)
    } else {
        0
    }
}

/// The entries with this one at its place: instead of the one of that name, or between those
/// whose names come before and after.
pub open spec fn filed<V>(entries: Seq<(Seq<char>, V)>, name: Seq<char>, value: V) -> Seq<
    (Seq<char>, V),
> {
    let at = position(entries, name);
    if at < entries.len() && entries[at].0 == name {
        entries.update(at, (name, value))
    } else {
        entries.insert(at, (name, value))
    }
}

/// Whether every name comes before every later one.
pub open spec fn ascending<V>(entries: Seq<(Seq<char>, V)>) -> bool {
    forall|i: int, j: int|
        0 <= i < j < entries.len() ==> before((#[trigger] entries[i]).0, (#[trigger] entries[j]).0)
}

/// Every entry before a name's place comes before the name, and the one at it does not.
pub proof fn lemma_position<V>(entries: Seq<(Seq<char>, V)>, name: Seq<char>)
    ensures
        0 <= position(entries, name) <= entries.len(),
        forall|i: int|
            0 <= i < position(entries, name) ==> before((#[trigger] entries[i]).0, name),
        position(entries, name) < entries.len() ==> !before(
            entries[position(entries, name)].0,
            name,
        ),
    decreases entries.len(),
{
    if entries.len() > 0 && before(entries[0].0, name) {
        let rest = entries.skip(1);
        lemma_position(rest, name);
        assert forall|i: int| 0 <= i < position(entries, name) implies before(
            (#[trigger] entries[i]).0,
            name,
        ) by {
            if i > 0 {
                assert(rest[i - 1] == entries[i]);
            }
        }
    }
}

/// Writes `value` under `name`, at the place of that name.
pub fn file<T: DeepView>(entries: &mut Vec<(String, T)>, name: String, value: T)
    ensures
        final(entries).deep_view() == filed(old(entries).deep_view(), name@, value.deep_view()),
{
    let ghost was = entries.deep_view();
    let mut at: usize = 0;
    proof {
        assert(was.skip(0) =~= was);
    }
    while at < entries.len() && comes_before(entries[at].0.as_str(), name.as_str())
        invariant
            at <= entries@.len(),
            entries.deep_view() == was,
            position(was, name@) == at + position(was.skip(at as int), name@),
        decreases entries@.len() - at,
    {
        proof {
            assert(was.skip(at as int).skip(1) =~= was.skip(at + 1));
            assert(was.skip(at as int)[0] == was[at as int]);
        }
        at = at + 1;
    }
    proof {
        if at < was.len() {
            assert(was.skip(at as int)[0] == was[at as int]);
        }
        assert(position(was, name@) == at);
    }
    if at < entries.len() && same_text(entries[at].0.as_str(), name.as_str()) {
        entries[at] = (name, value);
        proof {
            assert(entries.deep_view() =~= was.update(at as int, (name@, value.deep_view())));
        }
    } else {
        entries.insert(at, (name, value));
        proof {
            assert(entries.deep_view() =~= was.insert(at as int, (name@, value.deep_view())));
        }
    }
}

proof fn lemma_before_is_irreflexive(a: Seq<char>)
    ensures
        !before(a, a),
    decreases a.len(),
{
    if a.len() > 0 {
        lemma_before_is_irreflexive(a.skip(1));
    }
}

proof fn lemma_before_is_transitive(a: Seq<char>, b: Seq<char>, c: Seq<char>)
    requires
        before(a, b),
        before(b, c),
    ensures
        before(a, c),
    decreases a.len(),
{
    if a.len() > 0 && b.len() > 0 && c.len() > 0 && a[0] == b[0] && b[0] == c[0] {
        lemma_before_is_transitive(a.skip(1), b.skip(1), c.skip(1));
    }
}

proof fn lemma_before_is_total(a: Seq<char>, b: Seq<char>)
    ensures
        a == b || before(a, b) || before(b, a),
    decreases a.len(),
{
    if a.len() > 0 && b.len() > 0 && a[0] == b[0] {
        lemma_before_is_total(a.skip(1), b.skip(1));
        if a.skip(1) == b.skip(1) {
            assert(a =~= seq![a[0]] + a.skip(1));
            assert(b =~= seq![b[0]] + b.skip(1));
        }
    } else if a.len() == 0 && b.len() == 0 {
        assert(a =~= b);
    }
}

/// Names are strictly ordered: none comes before itself, the order carries over, and of two names
/// one comes before the other.
pub proof fn law_names_are_totally_ordered(a: Seq<char>, b: Seq<char>, c: Seq<char>)
    ensures
        !before(a, a),
        before(a, b) && before(b, c) ==> before(a, c),
        a == b || before(a, b) || before(b, a),
{
    lemma_before_is_irreflexive(a);
    if before(a, b) && before(b, c) {
        lemma_before_is_transitive(a, b, c);
    }
    lemma_before_is_total(a, b);
}

/// Filing an entry keeps the order, makes the value readable under its name, and leaves every
/// other name's value as it was.
pub proof fn law_filing_keeps_the_order<V>(
    entries: Seq<(Seq<char>, V)>,
    name: Seq<char>,
    value: V,
    other: Seq<char>,
)
    requires
        ascending(entries),
    ensures
        ascending(filed(entries, name, value)),
        lookup(filed(entries, name, value), name) == Some(value),
        other != name ==> lookup(filed(entries, name, value), other) == lookup(entries, other),
{
    let after = filed(entries, name, value);
    let at = position(entries, name);
    lemma_position(entries, name);
    let replaced = at < entries.len() && entries[at].0 == name;
    assert forall|i: int, j: int| 0 <= i < j < after.len() implies before(
        (#[trigger] after[i]).0,
        (#[trigger] after[j]).0,
    ) by {
        if !replaced {
            if j == at {
                assert(after[i] == entries[i]);
            } else if i == at {
                assert(after[j] == entries[j - 1]);
                lemma_before_is_total(name, entries[at].0);
                if j - 1 > at {
                    lemma_before_is_transitive(name, entries[at].0, entries[j - 1].0);
                }
            }
        }
    }
    assert(after[at] == (name, value));
    lemma_found(after, at);
    if other != name {
        lemma_slot(entries, other);
        lemma_slot(after, other);
        let here = crate::entries::slot(entries, other);
        let there = crate::entries::slot(after, other);
        if here < entries.len() {
            let moved = if replaced || here < at {
                here
            } else {
                here + 1
            };
            assert(after[moved] == entries[here]);
            lemma_found(after, moved);
        } else if there < after.len() {
            let back = if replaced || there < at {
                there
            } else {
                there - 1
            };
            assert(entries[back].0 == other);
        }
    }
}

/// In ascending entries, what stands at a place is what its name looks up.
pub proof fn lemma_found<V>(entries: Seq<(Seq<char>, V)>, at: int)
    requires
        ascending(entries),
        0 <= at < entries.len(),
    ensures
        lookup(entries, entries[at].0) == Some(entries[at].1),
{
    let name = entries[at].0;
    assert forall|i: int| 0 <= i < at implies (#[trigger] entries[i]).0 != name by {
        lemma_before_is_irreflexive(name);
    }
    lemma_slot_unique(entries, name, at);
}

/// In ascending entries, a name not at its place is nowhere.
pub proof fn lemma_absent<V>(entries: Seq<(Seq<char>, V)>, name: Seq<char>)
    requires
        ascending(entries),
        position(entries, name) < entries.len() ==> entries[position(entries, name)].0 != name,
    ensures
        lookup(entries, name) is None,
{
    let at = position(entries, name);
    lemma_position(entries, name);
    lemma_slot(entries, name);
    let found = crate::entries::slot(entries, name);
    if found < entries.len() {
        lemma_before_is_irreflexive(name);
        if found > at {
            lemma_before_is_total(entries[at].0, name);
            lemma_before_is_transitive(name, entries[at].0, entries[found].0);
        }
    }
}

} // verus!
