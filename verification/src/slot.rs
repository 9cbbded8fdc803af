//! The cell through which a worker hands its result to the program.

use vstd::prelude::*;

verus! {

/// A cell that holds at most one result. The worker delivers into it, and
/// the program takes the result out, which empties the cell: a result is
/// taken once and never twice.
pub struct ResultSlot<T> {
    value: Option<T>,
}

impl<T> View for ResultSlot<T> {
    type V = Option<T>;

    closed spec fn view(&self) -> Option<T> {
        self.value
    }
}

impl<T> ResultSlot<T> {
    /// An empty cell.
    pub fn new() -> (r: Self)
        ensures
            r@ is None,
    {
        ResultSlot { value: None }
    }

    /// Tells whether a result waits in the cell.
    pub fn is_full(&self) -> (r: bool)
        ensures
            r == (self@ is Some),
    {
        self.value.is_some()
    }

    /// Puts a result into the cell.
    pub fn deliver(&mut self, value: T)
        ensures
            final(self)@ == Some(value),
    {
        self.value = Some(value);
    }

    /// Takes out what the cell holds, and leaves it empty.
    pub fn take(&mut self) -> (r: Option<T>)
        ensures
            r == old(self)@,
            final(self)@ is None,
    {
        let mut taken: Option<T> = None;
        core::mem::swap(&mut taken, &mut self.value);
        taken
    }
}

} // verus!
