//! Identity of a displayed line, checked again after the list changes.
use vstd::prelude::*;

verus! {

/// A line of a list that a viewer can tell again after the list was redrawn.
pub trait LineState {
    type State;

    /// The state this line stands for.
    spec fn line_state(&self) -> Self::State;

    fn state(&self) -> (r: Self::State)
        ensures
            r == self.line_state(),
    ;

    fn is_identical(&self, state: &Self::State) -> (r: bool)
        ensures
            r == (self.line_state() == *state),
    ;
}

/// The position of a row in the list at the moment it was made: it names
/// the row, not the entry that happens to stand there.
#[derive(Clone, Copy, Debug, PartialEq, Eq, Structural)]
pub struct CacheID(pub usize);

impl LineState for CacheID {
    type State = usize;

    open spec fn line_state(&self) -> usize {
        self.0
    }

    fn state(&self) -> (r: usize) {
        self.0
    }

    fn is_identical(&self, state: &usize) -> (r: bool) {
        self.0 == *state
    }
}

} // verus!
