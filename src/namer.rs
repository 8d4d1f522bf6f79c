//! Debug labels for cards: a counter that hands out the next number.
use vstd::prelude::*;

verus! {

/// Hands each new card the next label number, starting from one.
#[derive(Clone, Copy, Debug, PartialEq, Eq, Structural)]
pub struct CardNamer {
    pub named: u64,
}

impl CardNamer {
    pub fn new() -> (r: CardNamer)
        ensures
            r.named == 0,
    {
        CardNamer { named: 0 }
    }

    /// The label number of the next card; `None` once every number is
    /// spent.
    pub fn next_label(&mut self) -> (r: Option<u64>)
        ensures
            old(self).named < u64::MAX ==> r == Some((old(self).named + 1) as u64)
                && final(self).named == old(self).named + 1,
            old(self).named == u64::MAX ==> r is None && final(self).named == old(self).named,
    {
        if self.named == u64::MAX {
            None
        } else {
            self.named = self.named + 1;
            Some(self.named)
        }
    }
}

} // verus!
