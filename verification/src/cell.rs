use vstd::prelude::*;

verus! {

/// A single lattice site, holding only its alive/dead state.
///
/// Cells carry value semantics: during a step they are replaced, never
/// mutated in place, so a snapshot of the cell array is stable.
#[derive(Clone, Copy, Debug, PartialEq, Eq, Structural)]
pub struct Cell {
    alive: bool,
}

impl View for Cell {
    type V = bool;

    closed spec fn view(&self) -> bool {
        self.alive
    }
}

impl Cell {
    pub fn new(alive: bool) -> (c: Cell)
        ensures
            c@ == alive,
    {
        Cell { alive }
    }

    pub fn is_alive(&self) -> (r: bool)
        ensures
            r == self@,
    {
        self.alive
    }

    pub fn set_state(&mut self, state: bool)
        ensures
            final(self)@ == state,
    {
        self.alive = state;
    }
}

} // verus!
