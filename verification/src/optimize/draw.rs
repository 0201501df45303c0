//! What a random generator hands an optimizer: samples, as the positions that were drawn.
use vstd::prelude::*;
use crate::duplicate::{append, Duplicate};

verus! {

/// Whether `drawn` is a sample of `count` positions out of `population`, without replacement.
pub open spec fn is_sample(drawn: Seq<usize>, population: nat, count: nat) -> bool {
    &&& drawn.len() == count
    &&& forall|i: int| 0 <= i < drawn.len() ==> (#[trigger] drawn[i]) < population
    &&& forall|i: int, j: int| 0 <= i < j < drawn.len() ==> drawn[i] != drawn[j]
}

/// The items at the drawn positions, in draw order.
pub open spec fn picked<V>(items: Seq<V>, drawn: Seq<usize>) -> Seq<V> {
    Seq::new(drawn.len(), |i: int| items[drawn[i] as int])
}

/// The smaller of two numbers.
pub open spec fn least(a: nat, b: nat) -> nat {
    if a <= b {
        a
    } else {
        b
    }
}

/// [`least`], computed.
pub fn lesser(a: usize, b: usize) -> (r: usize)
    ensures
        r == least(a as nat, b as nat),
{
    if a <= b {
        a
    } else {
        b
    }
}

/// [`picked`], copied out.
pub fn pick<T: Duplicate>(items: &Vec<T>, drawn: &Vec<usize>) -> (r: Vec<T>)
    requires
        forall|i: int| 0 <= i < drawn@.len() ==> (#[trigger] drawn@[i]) < items@.len(),
    ensures
        r.deep_view() == picked(items.deep_view(), drawn@),
{
    let mut r: Vec<T> = Vec::new();
    let mut i: usize = 0;
    while i < drawn.len()
        invariant
            i <= drawn@.len(),
            forall|i: int| 0 <= i < drawn@.len() ==> (#[trigger] drawn@[i]) < items@.len(),
            r.deep_view() == picked(items.deep_view(), drawn@).take(i as int),
        decreases drawn@.len() - i,
    {
        append(&mut r, items[drawn[i]].duplicate());
        proof {
            assert(picked(items.deep_view(), drawn@).take(i + 1) =~= picked(
                items.deep_view(),
                drawn@,
            ).take(i as int).push(items.deep_view()[drawn@[i as int] as int]));
        }
        i = i + 1;
    }
    proof {
        assert(picked(items.deep_view(), drawn@).take(i as int) =~= picked(
            items.deep_view(),
            drawn@,
        ));
    }
    r
}

/// A sample keeps what it was drawn from: every item of it stands in the population.
pub proof fn law_a_sample_holds_only_what_it_was_drawn_from<V>(
    items: Seq<V>,
    drawn: Seq<usize>,
    count: nat,
    i: int,
)
    requires
        is_sample(drawn, items.len(), count),
        0 <= i < count,
    ensures
        picked(items, drawn).len() == count,
        items.contains(picked(items, drawn)[i]),
{
    assert(items[drawn[i] as int] == picked(items, drawn)[i]);
}

/// Each item picked is the one at the position drawn for it.
pub proof fn law_each_draw_picks_its_item<V>(items: Seq<V>, drawn: Seq<usize>, position: usize)
    ensures
        picked(items, Seq::empty()).len() == 0,
        picked(items, drawn.push(position)) == picked(items, drawn).push(items[position as int]),
{
    assert(picked(items, drawn.push(position)) =~= picked(items, drawn).push(
        items[position as int],
    ));
}

/// The least of two numbers is one of them and no greater than either.
pub proof fn law_the_least_is_one_of_the_two(a: nat, b: nat)
    ensures
        least(a, b) <= a,
        least(a, b) <= b,
        least(a, b) == a || least(a, b) == b,
{
}

} // verus!
