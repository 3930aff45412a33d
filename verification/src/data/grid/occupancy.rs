use vstd::prelude::*;

use crate::data::cell::Cell;
use crate::data::world::rows_view;
use super::iter::full_rect;
use super::{in_rect, rect_fits, Grid, Pos, RectangularBound, Size};

verus! {

/// Whether each cell of the rows is occupied, row by row
pub open spec fn occupancy_flags<C: Cell>(rows: Seq<Seq<C>>) -> Seq<bool>
    decreases rows.len(),
{
    if rows.len() == 0 {
        Seq::empty()
    } else {
        occupancy_flags(rows.drop_last()) + rows.last().map_values(|c: C| c.occupied())
    }
}

/// What a grid is written as: its size, then whether each cell is occupied, row by row
pub struct GridSerializer<'g, G: 'g>(pub &'g G);

impl<'g, G> GridSerializer<'g, G> where G: Grid + RectangularBound {
    /// Writes the grid
    pub fn new(world: &'g G) -> (r: Self)
        ensures
            r.0 == world,
    {
        GridSerializer(world)
    }

    /// The size of the grid, and whether each of its cells is occupied, row by row
    pub fn occupancy(&self) -> (r: (Size, Vec<bool>))
        requires
            rect_fits(self.0),
            full_rect(self.0),
        ensures
            r.0 == (Size { x: self.0.width_spec(), y: self.0.height_spec() }),
            r.1@ == occupancy_flags(rows_view(self.0)),
    {
        let grid = self.0;
        let ghost rows = rows_view(grid);
        let start = grid.bound_start();
        let width = grid.width();
        let height = grid.height();
        let mut flags: Vec<bool> = Vec::new();
        proof {
            assert(rows.take(0) =~= Seq::<Seq<G::Cell>>::empty());
        }
        let mut y: u8 = 0;
        while y < height
            invariant
                rect_fits(grid),
                full_rect(grid),
                rows == rows_view(grid),
                start == grid.start(),
                width == grid.width_spec(),
                height == grid.height_spec(),
                y <= height,
                flags@ == occupancy_flags(rows.take(y as int)),
            decreases height - y,
        {
            let ghost before = flags@;
            let mut x: u8 = 0;
            while x < width
                invariant
                    rect_fits(grid),
                    full_rect(grid),
                    rows == rows_view(grid),
                    start == grid.start(),
                    width == grid.width_spec(),
                    height == grid.height_spec(),
                    y < height,
                    x <= width,
                    flags@ == before + rows[y as int].take(x as int).map_values(|c: G::Cell| c.occupied()),
                decreases width - x,
            {
                let p = Pos { x: start.x + x as i16, y: start.y + y as i16 };
                assert(in_rect(grid, p));
                let cell = grid.pos(p);
                flags.push(cell.is_occupied());
                proof {
                    assert(flags@ =~= before + rows[y as int].take(x + 1).map_values(|c: G::Cell| c.occupied()));
                }
                x = x + 1;
            }
            proof {
                assert(rows[y as int].take(width as int) =~= rows[y as int]);
                assert(rows.take(y + 1).drop_last() =~= rows.take(y as int));
                assert(rows.take(y + 1).last() == rows[y as int]);
            }
            y = y + 1;
        }
        proof {
            assert(rows.take(height as int) =~= rows);
        }
        (Size { x: width, y: height }, flags)
    }
}

} // verus!
