use vstd::prelude::*;

use crate::data::cell::Cell;
use crate::data::world::rows_view;
use super::iter::full_rect;
use super::{in_rect, rect_fits, Grid, Pos, RectangularBound};

verus! {

/// `#` for an occupied cell, `-` for an empty one
pub open spec fn occupy_char<C: Cell>(c: C) -> char {
    if c.occupied() {
        '#'
    } else {
        '-'
    }
}

/// The characters of a row's cells
pub open spec fn occupy_chars<C: Cell>(row: Seq<C>) -> Seq<char>
    decreases row.len(),
{
    if row.len() == 0 {
        Seq::empty()
    } else {
        occupy_chars(row.drop_last()).push(occupy_char(row.last()))
    }
}

/// The rows' characters, each row followed by a line break
pub open spec fn occupy_text<C: Cell>(rows: Seq<Seq<C>>) -> Seq<char>
    decreases rows.len(),
{
    if rows.len() == 0 {
        Seq::empty()
    } else {
        occupy_text(rows.drop_last()) + occupy_chars(rows.last()).push('\n')
    }
}

/// Shows which cells of a grid are occupied, row by row
pub struct OccupyPrinter<'g, G: 'g>(pub &'g G);

impl<'g, G> OccupyPrinter<'g, G> where G: Grid + RectangularBound {
    /// The text: for each row, `#` for each occupied cell and `-` for each empty one, then a
    /// line break
    pub fn render(&self) -> (s: String)
        requires
            rect_fits(self.0),
            full_rect(self.0),
        ensures
            s@ == occupy_text(rows_view(self.0)),
    {
        let grid = self.0;
        let ghost rows = rows_view(grid);
        let start = grid.bound_start();
        let width = grid.width();
        let height = grid.height();
        let mut s = String::new();
        proof {
            reveal_strlit("#");
            reveal_strlit("-");
            reveal_strlit("\n");
            assert(rows.take(0) =~= Seq::<Seq<G::Cell>>::empty());
        }
        let mut y: u8 = 0;
        while y < height
            invariant
                rect_fits(grid),
                full_rect(grid),
                rows == rows_view(grid),
                start == grid.start(),
                width == grid.width_spec(),
                height == grid.height_spec(),
                y <= height,
                s@ == occupy_text(rows.take(y as int)),
            decreases height - y,
        {
            let ghost before = s@;
            let mut x: u8 = 0;
            proof {
                assert(rows[y as int].take(0) =~= Seq::<G::Cell>::empty());
            }
            while x < width
                invariant
                    rect_fits(grid),
                    full_rect(grid),
                    rows == rows_view(grid),
                    start == grid.start(),
                    width == grid.width_spec(),
                    height == grid.height_spec(),
                    y < height,
                    x <= width,
                    s@ == before + occupy_chars(rows[y as int].take(x as int)),
                decreases width - x,
            {
                let p = Pos { x: start.x + x as i16, y: start.y + y as i16 };
                assert(in_rect(grid, p));
                let cell = grid.pos(p);
                if cell.is_occupied() {
                    s.append("#");
                } else {
                    s.append("-");
                }
                proof {
                    reveal_strlit("#");
                    reveal_strlit("-");
                    let row = rows[y as int];
                    assert(row.take(x + 1).drop_last() =~= row.take(x as int));
                    assert(row.take(x + 1).last() == row[x as int]);
                    assert(occupy_chars(row.take(x + 1)) == occupy_chars(row.take(x as int)).push(
                        occupy_char(row[x as int]),
                    ));
                    assert(s@ =~= before + occupy_chars(row.take(x + 1)));
                }
                x = x + 1;
            }
            s.append("\n");
            proof {
                reveal_strlit("\n");
                assert(rows[y as int].take(width as int) =~= rows[y as int]);
                assert(rows.take(y + 1).drop_last() =~= rows.take(y as int));
                assert(rows.take(y + 1).last() == rows[y as int]);
                assert(occupy_text(rows.take(y + 1)) == occupy_text(rows.take(y as int))
                    + occupy_chars(rows[y as int]).push('\n'));
                assert(s@ =~= occupy_text(rows.take(y + 1)));
            }
            y = y + 1;
        }
        proof {
            assert(rows.take(height as int) =~= rows);
        }
        s
    }
}

} // verus!
