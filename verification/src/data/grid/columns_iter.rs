use vstd::prelude::*;

use super::{column, Grid, RectangularBound, SizeAxis};

verus! {

/// Iterates through a grid's columns
pub struct Iter<'g, G: 'g> {
    grid: &'g G,
    x: SizeAxis,
}

impl<'g, G> Iter<'g, G> where G: Grid + RectangularBound {
    /// The grid whose rows are yielded
    pub closed spec fn grid(&self) -> &'g G {
        self.grid
    }

    /// The cursor: the next column from the front, and the column after the next one from the back
    pub closed spec fn cursor(&self) -> SizeAxis {
        self.x
    }

    /// Starts before the first column
    pub fn new(grid: &'g G) -> (it: Self)
        ensures
            it.grid() == grid,
            it.cursor() == 0,
    {
        Iter { grid, x: 0 }
    }

    /// Starts after the last column, for iterating backwards
    pub fn reversed(self) -> (it: Self)
        ensures
            it.grid() == self.grid(),
            it.cursor() == self.grid().width_spec(),
    {
        Iter { x: self.grid.width(), ..self }
    }

    /// Yields the column at the cursor and advances, until the last column
    pub fn next(&mut self) -> (r: Option<column::Grid<'g, G>>)
        ensures
            final(self).grid() == old(self).grid(),
            old(self).cursor() < old(self).grid().width_spec() ==> {
                &&& r == Some(column::Grid { grid: old(self).grid(), x: old(self).cursor() })
                &&& final(self).cursor() == old(self).cursor() + 1
            },
            old(self).cursor() >= old(self).grid().width_spec() ==> (r is None && final(self).cursor() == old(self).cursor()),
    {
        if self.x < self.grid.width() {
            let x = self.x;
            self.x = self.x + 1;
            Some(column::Grid { grid: self.grid, x })
        } else {
            None
        }
    }

    /// Steps back and yields the column before the cursor, until the first column
    pub fn next_back(&mut self) -> (r: Option<column::Grid<'g, G>>)
        ensures
            final(self).grid() == old(self).grid(),
            old(self).cursor() == 0 ==> r is None && final(self).cursor() == 0,
            old(self).cursor() > 0 ==> {
                &&& final(self).cursor() == old(self).cursor() - 1
                &&& r == Some(column::Grid { grid: old(self).grid(), x: final(self).cursor() })
            },
    {
        if self.x == 0 {
            None
        } else {
            self.x = self.x - 1;
            Some(column::Grid { grid: self.grid, x: self.x })
        }
    }

    /// The number of columns of the grid
    pub fn len(&self) -> (r: usize)
        ensures
            r == self.grid().width_spec(),
    {
        self.grid.width() as usize
    }

    /// Bounds on the number of columns: the number of columns of the grid
    pub fn size_hint(&self) -> (r: (usize, Option<usize>))
        ensures
            r.0 == self.grid().width_spec(),
            r.1 == Some(r.0),
    {
        let len = self.len();
        (len, Some(len))
    }
}

} // verus!
