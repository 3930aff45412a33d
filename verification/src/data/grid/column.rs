use vstd::prelude::*;

use super::Grid as GridTrait;
use super::{axis_fits, Pos, PosAxis, RectangularBound, SizeAxis};

verus! {

/// Represents a column of a grid: the column `x`, counted from the grid's start
#[derive(Copy, Clone)]
pub struct Grid<'g, G: 'g> {
    pub grid: &'g G,
    pub x: SizeAxis,
}

impl<'g, G> GridTrait for Grid<'g, G> where G: GridTrait + RectangularBound + 'g {
    type Cell = <G as GridTrait>::Cell;

    /// Positions in other columns are out of bounds of the column; in the column, the grid decides
    open spec fn oob(&self, pos: Pos) -> bool {
        pos.x != self.x + self.grid.start().x || self.grid.oob(pos)
    }

    open spec fn cell_at(&self, pos: Pos) -> Self::Cell {
        self.grid.cell_at(pos)
    }

    fn is_out_of_bounds(&self, pos: Pos) -> (r: bool) {
        if pos.x as i32 == self.x as i32 + self.grid.bound_start().x as i32 {
            self.grid.is_out_of_bounds(pos)
        } else {
            true
        }
    }

    fn pos(&self, pos: Pos) -> (c: Self::Cell) {
        self.grid.pos(pos)
    }
}

impl<'g, G> RectangularBound for Grid<'g, G> where G: RectangularBound + 'g {
    open spec fn start(&self) -> Pos {
        self.grid.start()
    }

    open spec fn width_spec(&self) -> SizeAxis {
        1
    }

    open spec fn height_spec(&self) -> SizeAxis {
        self.grid.height_spec()
    }

    fn bound_start(&self) -> (r: Pos) {
        self.grid.bound_start()
    }

    fn width(&self) -> (r: SizeAxis) {
        1
    }

    fn height(&self) -> (r: SizeAxis) {
        self.grid.height()
    }
}

/// Iterates through a column's row cells, from the first row on, as long as they are in
/// bounds
pub struct Iter<'g, G: 'g> {
    grid: Grid<'g, G>,
    row: SizeAxis,
}

impl<'g, G> Iter<'g, G> where G: GridTrait + RectangularBound + 'g {
    /// The column being iterated
    pub closed spec fn column(&self) -> Grid<'g, G> {
        self.grid
    }

    /// The next row to look at
    pub closed spec fn next_row(&self) -> SizeAxis {
        self.row
    }

    /// The absolute position of the next row's cell
    pub open spec fn next_pos(&self) -> Pos {
        Pos {
            x: (self.column().x + self.column().grid.start().x) as i16,
            y: (self.next_row() + self.column().grid.start().y) as i16,
        }
    }

    /// Starts at the column's first row
    pub fn new(grid: Grid<'g, G>) -> (it: Self)
        ensures
            it.column() == grid,
            it.next_row() == 0,
    {
        Iter { grid, row: 0 }
    }

    /// The position of the next row's cell, relative to the grid's start
    pub fn pos(&self) -> (r: Pos)
        ensures
            r == (Pos { x: self.column().x as i16, y: self.next_row() as i16 }),
    {
        Pos { x: self.grid.x as PosAxis, y: self.row as PosAxis }
    }

    /// Yields the next row and its cell while the cell is in bounds
    pub fn next(&mut self) -> (r: Option<(SizeAxis, <G as GridTrait>::Cell)>)
        requires
            axis_fits(old(self).column().x + old(self).column().grid.start().x),
            axis_fits(old(self).next_row() + old(self).column().grid.start().y),
            old(self).next_row() == u8::MAX ==> old(self).column().oob(old(self).next_pos()),
        ensures
            final(self).column() == old(self).column(),
            r == (if old(self).column().oob(old(self).next_pos()) {
                None
            } else {
                Some((old(self).next_row(), old(self).column().cell_at(old(self).next_pos())))
            }),
            r is Some ==> final(self).next_row() == old(self).next_row() + 1,
            r is None ==> final(self).next_row() == old(self).next_row(),
    {
        let p = self.pos().add(self.grid.bound_start());
        if let Some(cell) = self.grid.position(p) {
            let row = self.row;
            self.row = self.row + 1;
            Some((row, cell))
        } else {
            None
        }
    }

    /// The number of rows left
    pub fn len(&self) -> (r: usize)
        requires
            self.next_row() <= self.column().grid.height_spec(),
        ensures
            r == self.column().grid.height_spec() - self.next_row(),
    {
        (self.grid.grid.height() - self.row) as usize
    }

    /// Bounds on the number of rows left
    pub fn size_hint(&self) -> (r: (usize, Option<usize>))
        requires
            self.next_row() <= self.column().grid.height_spec(),
        ensures
            r.0 == self.column().grid.height_spec() - self.next_row(),
            r.1 == Some(r.0),
    {
        let len = self.len();
        (len, Some(len))
    }
}

} // verus!
