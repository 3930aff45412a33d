use vstd::prelude::*;

use super::Grid as GridTrait;
use super::{axis_fits, Pos, RectangularBound, SizeAxis};

verus! {

/// The position `a + b`, wrapping around on overflow
pub open spec fn wrapped_sum(a: Pos, b: Pos) -> Pos {
    Pos { x: (a.x + b.x) as i16, y: (a.y + b.y) as i16 }
}

/// Translates `grid`: the cell at `p` is the grid's cell at `pos + p`
#[derive(Copy, Clone)]
pub struct Grid<'g, G: 'g> {
    pub grid: &'g G,
    pub pos: Pos,
}

impl<'g, G> GridTrait for Grid<'g, G> where G: GridTrait + 'g {
    type Cell = <G as GridTrait>::Cell;

    /// Out of bounds where the grid is, and where `pos + p` does not fit in a position
    open spec fn oob(&self, p: Pos) -> bool {
        !axis_fits(self.pos.x + p.x) || !axis_fits(self.pos.y + p.y) || self.grid.oob(
            wrapped_sum(self.pos, p),
        )
    }

    open spec fn cell_at(&self, p: Pos) -> Self::Cell {
        self.grid.cell_at(wrapped_sum(self.pos, p))
    }

    fn is_out_of_bounds(&self, p: Pos) -> (r: bool) {
        match (self.pos.x.checked_add(p.x), self.pos.y.checked_add(p.y)) {
            (Some(x), Some(y)) => self.grid.is_out_of_bounds(Pos { x, y }),
            _ => true,
        }
    }

    fn pos(&self, p: Pos) -> (c: Self::Cell) {
        self.grid.pos(self.pos.add(p))
    }
}

impl<'g, G> RectangularBound for Grid<'g, G> where G: RectangularBound + 'g {
    /// The grid's start moved by `pos` (wrapping around on overflow)
    open spec fn start(&self) -> Pos {
        Pos {
            x: self.pos.x.wrapping_add(self.grid.start().x),
            y: self.pos.y.wrapping_add(self.grid.start().y),
        }
    }

    open spec fn width_spec(&self) -> SizeAxis {
        self.grid.width_spec()
    }

    open spec fn height_spec(&self) -> SizeAxis {
        self.grid.height_spec()
    }

    fn bound_start(&self) -> (r: Pos) {
        let start = self.grid.bound_start();
        Pos { x: self.pos.x.wrapping_add(start.x), y: self.pos.y.wrapping_add(start.y) }
    }

    fn width(&self) -> (r: SizeAxis) {
        self.grid.width()
    }

    fn height(&self) -> (r: SizeAxis) {
        self.grid.height()
    }
}

} // verus!
