use core::ops::Range;

use vstd::prelude::*;

use crate::data::cell::Cell as CellTrait;
use crate::data::grid::{self, Grid, Pos, RectangularBound, SizeAxis};
use crate::data::shapes::tetrimino::RotatedShape;
use super::{
    cleared_rows, empty_row, full_rows_count, intersection, kept_rows, lemma_kept_rows_len,
    lemma_kept_rows_step, rows_view, row_full,
    same_frame, shape_pos_fits, CellIntersection, World as WorldTrait,
};

verus! {

/// Width of the world
pub const WIDTH: SizeAxis = 10;

/// Height of the world
pub const HEIGHT: SizeAxis = 20;

/// Rectangular static sized game world (10 columns, 20 rows)
#[derive(Clone, Copy)]
pub struct World<Cell>([[Cell; 10]; 20]);

impl<C: CellTrait> RectangularBound for World<C> {
    open spec fn start(&self) -> Pos {
        Pos { x: 0, y: 0 }
    }

    open spec fn width_spec(&self) -> SizeAxis {
        WIDTH
    }

    open spec fn height_spec(&self) -> SizeAxis {
        HEIGHT
    }

    fn bound_start(&self) -> (r: Pos) {
        Pos { x: 0, y: 0 }
    }

    fn width(&self) -> (r: SizeAxis) {
        WIDTH
    }

    fn height(&self) -> (r: SizeAxis) {
        HEIGHT
    }
}

impl<C: CellTrait> World<C> {
    /// The cells of the world, row by row
    pub closed spec fn cells(&self) -> Seq<Seq<C>> {
        Seq::new(20, |y: int| self.0[y]@)
    }

    /// The rows view of the world is its cells
    proof fn lemma_rows_view(&self)
        ensures
            rows_view(self) == self.cells(),
            forall|y: int| 0 <= y < 20 ==> #[trigger] self.cells()[y].len() == 10,
    {
        assert(rows_view(self) =~~= self.cells());
    }
}

impl<C: CellTrait> World<C> {
    /// Whether every cell of the row is occupied
    fn row_occupied(&self, y: SizeAxis) -> (r: bool)
        requires
            y < 20,
        ensures
            r == row_full(rows_view(self)[y as int]),
    {
        proof {
            self.lemma_rows_view();
        }
        let mut x: usize = 0;
        while x < 10
            invariant
                y < 20,
                x <= 10,
                rows_view(self) == self.cells(),
                self.cells()[y as int].len() == 10,
                forall|i: int| 0 <= i < x ==> #[trigger] self.cells()[y as int][i].occupied(),
            decreases 10 - x,
        {
            if !self.0[y as usize][x].is_occupied() {
                return false;
            }
            x = x + 1;
        }
        true
    }
}

impl<C: CellTrait> Grid for World<C> {
    type Cell = C;

    open spec fn oob(&self, pos: Pos) -> bool {
        !grid::in_rect(self, pos)
    }

    closed spec fn cell_at(&self, pos: Pos) -> C {
        self.0[pos.y as int][pos.x as int]
    }

    fn is_out_of_bounds(&self, pos: Pos) -> (r: bool) {
        grid::is_position_outside_rectangle(self, pos)
    }

    fn pos(&self, pos: Pos) -> (c: C) {
        self.0[pos.y as usize][pos.x as usize]
    }
}

impl<C: CellTrait> WorldTrait for World<C> {
    proof fn lemma_bounds(&self) {
    }

    fn set_pos(&mut self, x: usize, y: usize, state: C) {
        proof {
            old(self).lemma_rows_view();
        }
        self.0[y][x] = state;
        proof {
            self.lemma_rows_view();
            assert(self.cells() =~~= old(self).cells().update(
                y as int,
                old(self).cells()[y as int].update(x as int, state),
            ));
        }
    }

    fn shape_intersects(&self, shape: &RotatedShape, pos: Pos) -> (r: CellIntersection) {
        super::shape_intersects(self, shape, pos)
    }

    fn handle_full_rows(&mut self, y_check: Range<SizeAxis>) -> (r: SizeAxis) {
        let a = y_check.start;
        let b = y_check.end;
        let ghost old_rows = rows_view(self);
        proof {
            self.lemma_rows_view();
            assert(old_rows.subrange(b as int, b as int) =~= Seq::<Seq<C>>::empty());
            assert(cleared_rows(old_rows, b as int, b as int, 10) =~= old_rows);
        }
        let mut terminated_rows: SizeAxis = 0;
        let mut j: SizeAxis = b;
        while j > a
            invariant
                a < b <= 20,
                a <= j <= b,
                old_rows == rows_view(old(self)),
                old_rows.len() == 20,
                forall|i: int| 0 <= i < 20 ==> #[trigger] old_rows[i].len() == 10,
                terminated_rows == full_rows_count(old_rows, j as int, b as int),
                rows_view(self) == cleared_rows(old_rows, j as int, b as int, 10),
            decreases j - a,
        {
            proof {
                lemma_kept_rows_len(old_rows.subrange(j as int, b as int));
                lemma_kept_rows_step(old_rows, j as int, b as int);
            }
            let ghost cur = rows_view(self);
            let ghost kept = kept_rows(old_rows.subrange(j as int, b as int));
            j = j - 1;
            let y_lowest = j + terminated_rows;
            assert(cur[y_lowest as int] == old_rows[j as int]);
            if self.row_occupied(y_lowest) {
                terminated_rows = terminated_rows + 1;
                let mut y = y_lowest;
                while y > 0
                    invariant
                        y <= y_lowest < 20,
                        cur.len() == 20,
                        rows_view(self) == cur.subrange(0, y + 1) + cur.subrange(
                            y as int,
                            y_lowest as int,
                        ) + cur.subrange(y_lowest + 1, 20),
                    decreases y,
                {
                    proof {
                        self.lemma_rows_view();
                    }
                    y = y - 1;
                    self.copy_row(y, y + 1);
                    assert(rows_view(self) =~= cur.subrange(0, y + 1) + cur.subrange(
                        y as int,
                        y_lowest as int,
                    ) + cur.subrange(y_lowest + 1, 20));
                }
                self.clear_row(0);
                proof {
                    assert(rows_view(self) =~= seq![empty_row::<C>(10)] + cur.subrange(
                        0,
                        y_lowest as int,
                    ) + cur.subrange(y_lowest + 1, 20));
                    assert(rows_view(self) =~= cleared_rows(old_rows, j as int, b as int, 10));
                }
            } else {
                proof {
                    assert(rows_view(self) =~= cleared_rows(old_rows, j as int, b as int, 10));
                }
            }
        }
        terminated_rows
    }

    fn clear_row(&mut self, y: SizeAxis) {
        proof {
            old(self).lemma_rows_view();
        }
        self.0[y as usize] = [C::empty(); 10];
        proof {
            self.lemma_rows_view();
            assert(self.cells() =~~= old(self).cells().update(y as int, empty_row::<C>(10)));
        }
    }

    fn copy_row(&mut self, y_from: SizeAxis, y_to: SizeAxis) {
        proof {
            old(self).lemma_rows_view();
        }
        self.0[y_to as usize] = self.0[y_from as usize];
        proof {
            self.lemma_rows_view();
            assert(self.cells() =~~= old(self).cells().update(
                y_to as int,
                old(self).cells()[y_from as int],
            ));
        }
    }
}

impl<C: CellTrait> World<C> {
    /// A world of empty cells
    pub fn default() -> (w: Self)
        ensures
            rows_view(&w) == Seq::new(20, |y: int| empty_row::<C>(10)),
    {
        let w = World([[C::empty(); 10]; 20]);
        proof {
            w.lemma_rows_view();
            assert(w.cells() =~~= Seq::new(20, |y: int| empty_row::<C>(10)));
        }
        w
    }
}

} // verus!
