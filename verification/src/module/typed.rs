//! A module asked through the task it was built from.
use std::marker::PhantomData;
use vstd::prelude::*;

verus! {

/// A module, with the task its answers are read as.
#[derive(Debug)]
pub struct Typed<S, M> {
    pub module: M,
    pub spec_of: PhantomData<S>,
}

impl<S, M> Typed<S, M> {
    pub fn new(module: M) -> (r: Typed<S, M>)
        ensures
            r.module == module,
    {
        Typed { module, spec_of: PhantomData }
    }

    /// The module underneath.
    pub fn into_module(self) -> (r: M)
        ensures
            r == self.module,
    {
        self.module
    }

    /// A builder applied to the module underneath, keeping the task.
    pub fn map<F: FnOnce(M) -> M>(self, build: F) -> (r: Typed<S, M>)
        requires
            build.requires((self.module,)),
        ensures
            build.ensures((self.module,), r.module),
    {
        Typed::new(build(self.module))
    }
}

} // verus!
