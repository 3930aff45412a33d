use vstd::prelude::*;

verus! {

/// Represents a cell in a grid
pub trait Cell: Sized + Copy {
    /// Whether this cell is non-empty
    spec fn occupied(self) -> bool;

    /// The cell that `empty` constructs
    spec fn empty_cell() -> Self;

    /// The empty cell is not occupied
    proof fn lemma_empty_cell()
        ensures
            !Self::empty_cell().occupied(),
    ;

    /// Constructs an empty cell
    fn empty() -> (c: Self)
        ensures
            c == Self::empty_cell(),
    ;

    /// Returns whether this cell is non-empty
    fn is_occupied(self) -> (r: bool)
        ensures
            r == self.occupied(),
    ;

    /// Returns whether this cell is empty
    fn is_empty(self) -> (r: bool)
        ensures
            r == !self.occupied(),
    {
        !self.is_occupied()
    }
}

/// A cell that remembers which shape was imprinted on it, if any
#[derive(Clone, Copy, PartialEq, Eq, Debug, Structural)]
pub struct ShapeCell(pub Option<crate::data::shapes::tetrimino::Shape>);

impl Cell for ShapeCell {
    open spec fn occupied(self) -> bool {
        self.0 is Some
    }

    open spec fn empty_cell() -> Self {
        ShapeCell(None)
    }

    proof fn lemma_empty_cell() {
    }

    fn empty() -> (c: Self) {
        ShapeCell(None)
    }

    fn is_occupied(self) -> (r: bool) {
        self.0.is_some()
    }
}

impl Cell for bool {
    open spec fn occupied(self) -> bool {
        self
    }

    open spec fn empty_cell() -> Self {
        false
    }

    proof fn lemma_empty_cell() {
    }

    fn empty() -> (c: Self) {
        false
    }

    fn is_occupied(self) -> (r: bool) {
        self
    }
}

} // verus!
