//! Copies that are known to hold what they were copied from.
use vstd::prelude::*;

verus! {

/// A type whose values can be copied, the copy holding the same contents.
pub trait Duplicate: DeepView + Sized {
    fn duplicate(&self) -> (r: Self)
        ensures
            r.deep_view() == self.deep_view(),
    ;
}

impl Duplicate for String {
    fn duplicate(&self) -> (r: Self) {
        self.clone()
    }
}

impl Duplicate for usize {
    fn duplicate(&self) -> (r: Self) {
        *self
    }
}

impl Duplicate for bool {
    fn duplicate(&self) -> (r: Self) {
        *self
    }
}

impl<T: Duplicate> Duplicate for Option<T> {
    fn duplicate(&self) -> (r: Self) {
        match self {
            Some(inner) => Some(inner.duplicate()),
            None => None,
        }
    }
}

impl<A: Duplicate, B: Duplicate> Duplicate for (A, B) {
    fn duplicate(&self) -> (r: Self) {
        (self.0.duplicate(), self.1.duplicate())
    }
}

impl<T: Duplicate> Duplicate for Vec<T> {
    fn duplicate(&self) -> (r: Self) {
        proof {
            assert(self.deep_view().subrange(0, self@.len() as int) =~= self.deep_view());
        }
        duplicate_range(self, 0, self.len())
    }
}

/// The items of a list from `from` up to `to`.
pub fn duplicate_range<T: Duplicate>(items: &Vec<T>, from: usize, to: usize) -> (r: Vec<T>)
    requires
        from <= to <= items@.len(),
    ensures
        r.deep_view() == items.deep_view().subrange(from as int, to as int),
{
    let mut r: Vec<T> = Vec::new();
    let mut i: usize = from;
    while i < to
        invariant
            from <= i <= to <= items@.len(),
            r.deep_view() == items.deep_view().subrange(from as int, i as int),
        decreases to - i,
    {
        append(&mut r, items[i].duplicate());
        proof {
            assert(items.deep_view().subrange(from as int, i + 1) =~= items.deep_view().subrange(
                from as int,
                i as int,
            ).push(items.deep_view()[i as int]));
        }
        i = i + 1;
    }
    r
}

/// Adds one item at the end of a list.
pub fn append<T: DeepView>(items: &mut Vec<T>, item: T)
    ensures
        final(items)@ == old(items)@.push(item),
        final(items).deep_view() == old(items).deep_view().push(item.deep_view()),
{
    items.push(item);
    proof {
        assert(items.deep_view() =~= old(items).deep_view().push(item.deep_view()));
    }
}

/// Adds copies of `more` at the end of a list.
pub fn append_all<T: Duplicate>(items: &mut Vec<T>, more: &Vec<T>)
    ensures
        final(items).deep_view() == old(items).deep_view() + more.deep_view(),
{
    let mut i: usize = 0;
    proof {
        assert(old(items).deep_view() + more.deep_view().take(0) =~= old(items).deep_view());
    }
    while i < more.len()
        invariant
            i <= more@.len(),
            items.deep_view() == old(items).deep_view() + more.deep_view().take(i as int),
        decreases more@.len() - i,
    {
        append(items, more[i].duplicate());
        proof {
            assert(old(items).deep_view() + more.deep_view().take(i + 1) =~= (old(items).deep_view()
                + more.deep_view().take(i as int)).push(more.deep_view()[i as int]));
        }
        i = i + 1;
    }
    proof {
        assert(more.deep_view().take(more@.len() as int) =~= more.deep_view());
    }
}

} // verus!
