use vstd::prelude::*;

use super::Grid as GridTrait;
use super::{axis_fits, Pos, PosAxis, RectangularBound, SizeAxis};

verus! {

/// Represents a row of a grid: the row `y`, counted from the grid's start
#[derive(Copy, Clone)]
pub struct Grid<'g, G: 'g> {
    pub grid: &'g G,
    pub y: SizeAxis,
}

impl<'g, G> GridTrait for Grid<'g, G> where G: GridTrait + RectangularBound + 'g {
    type Cell = <G as GridTrait>::Cell;

    /// Positions in other rows are out of bounds of the row; in the row, the grid decides
    open spec fn oob(&self, pos: Pos) -> bool {
        pos.y != self.y + self.grid.start().y || self.grid.oob(pos)
    }

    open spec fn cell_at(&self, pos: Pos) -> Self::Cell {
        self.grid.cell_at(pos)
    }

    fn is_out_of_bounds(&self, pos: Pos) -> (r: bool) {
        if pos.y as i32 == self.y as i32 + self.grid.bound_start().y as i32 {
            self.grid.is_out_of_bounds(pos)
        } else {
            true
        }
    }

    fn pos(&self, pos: Pos) -> (c: Self::Cell) {
        self.grid.pos(pos)
    }
}

impl<'g, G> RectangularBound for Grid<'g, G> where G: RectangularBound + 'g {
    open spec fn start(&self) -> Pos {
        self.grid.start()
    }

    open spec fn width_spec(&self) -> SizeAxis {
        self.grid.width_spec()
    }

    open spec fn height_spec(&self) -> SizeAxis {
        1
    }

    fn bound_start(&self) -> (r: Pos) {
        self.grid.bound_start()
    }

    fn width(&self) -> (r: SizeAxis) {
        self.grid.width()
    }

    fn height(&self) -> (r: SizeAxis) {
        1
    }
}

/// Iterates through a row's column cells, from the first column on, as long as they are in
/// bounds
pub struct Iter<'g, G: 'g> {
    grid: Grid<'g, G>,
    column: SizeAxis,
}

impl<'g, G> Iter<'g, G> where G: GridTrait + RectangularBound + 'g {
    /// The row being iterated
    pub closed spec fn row(&self) -> Grid<'g, G> {
        self.grid
    }

    /// The next column to look at
    pub closed spec fn next_column(&self) -> SizeAxis {
        self.column
    }

    /// The absolute position of the next column's cell
    pub open spec fn next_pos(&self) -> Pos {
        Pos {
            x: (self.next_column() + self.row().grid.start().x) as i16,
            y: (self.row().y + self.row().grid.start().y) as i16,
        }
    }

    /// Starts at the row's first column
    pub fn new(grid: Grid<'g, G>) -> (it: Self)
        ensures
            it.row() == grid,
            it.next_column() == 0,
    {
        Iter { grid, column: 0 }
    }

    /// The position of the next column's cell, relative to the grid's start
    pub fn pos(&self) -> (r: Pos)
        ensures
            r == (Pos { x: self.next_column() as i16, y: self.row().y as i16 }),
    {
        Pos { x: self.column as PosAxis, y: self.grid.y as PosAxis }
    }

    /// Yields the next column and its cell while the cell is in bounds
    pub fn next(&mut self) -> (r: Option<(SizeAxis, <G as GridTrait>::Cell)>)
        requires
            axis_fits(old(self).next_column() + old(self).row().grid.start().x),
            axis_fits(old(self).row().y + old(self).row().grid.start().y),
            old(self).next_column() == u8::MAX ==> old(self).row().oob(old(self).next_pos()),
        ensures
            final(self).row() == old(self).row(),
            r == (if old(self).row().oob(old(self).next_pos()) {
                None
            } else {
                Some((old(self).next_column(), old(self).row().cell_at(old(self).next_pos())))
            }),
            r is Some ==> final(self).next_column() == old(self).next_column() + 1,
            r is None ==> final(self).next_column() == old(self).next_column(),
    {
        let p = self.pos().add(self.grid.bound_start());
        if let Some(cell) = self.grid.position(p) {
            let column = self.column;
            self.column = self.column + 1;
            Some((column, cell))
        } else {
            None
        }
    }

    /// The number of columns left
    pub fn len(&self) -> (r: usize)
        requires
            self.next_column() <= self.row().grid.width_spec(),
        ensures
            r == self.row().grid.width_spec() - self.next_column(),
    {
        (self.grid.grid.width() - self.column) as usize
    }

    /// Bounds on the number of columns left
    pub fn size_hint(&self) -> (r: (usize, Option<usize>))
        requires
            self.next_column() <= self.row().grid.width_spec(),
        ensures
            r.0 == self.row().grid.width_spec() - self.next_column(),
            r.1 == Some(r.0),
    {
        let len = self.len();
        (len, Some(len))
    }
}

} // verus!
