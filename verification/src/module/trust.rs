//! Whether a saved program came from somewhere the caller vouches for.
use vstd::prelude::*;

verus! {

/// How much of a saved model block to believe.
#[derive(Clone, Copy, Debug, PartialEq, Eq, Structural)]
pub enum Trust {
    /// What every ordinary load gets: the settings that decide which host answers are dropped, and
    /// everything else in the block is kept.
    Default,
    /// The caller states that the file came from somewhere they trust, and the block is kept whole.
    File,
}

impl Trust {
    /// Whether a block's redirecting settings survive the load.
    pub fn allows_redirect(self) -> (r: bool)
        ensures
            r == (self == Trust::File),
    {
        match self {
            Trust::File => true,
            Trust::Default => false,
        }
    }
}

} // verus!
