use core::ops::Range;

use vstd::prelude::*;

use crate::data::cell::Cell as CellTrait;
use crate::data::grid::{self, Grid, Pos, PosAxis, RectangularBound, SizeAxis};
use crate::data::shapes::tetrimino::RotatedShape;
use super::{
    cleared_rows, empty_row, full_rows_count, kept_rows, lemma_kept_rows_len, lemma_kept_rows_step,
    row_full, rows_view, same_frame, CellIntersection, World as WorldTrait,
};

verus! {

/// The index of the cell in column `x` of row `y` among the cells of rows of width `w`
pub open spec fn cell_index(x: int, y: int, w: int) -> int {
    x + y * w
}

/// Inside `w` columns and `h` rows, cells have distinct indices below `w * h`
proof fn lemma_cell_index(x: int, y: int, x2: int, y2: int, w: int, h: int)
    requires
        0 <= x < w,
        0 <= y < h,
        0 <= x2 < w,
        0 <= y2 < h,
    ensures
        0 <= cell_index(x, y, w) < w * h,
        cell_index(x, y, w) == cell_index(x2, y2, w) ==> x == x2 && y == y2,
{
    assert(0 <= x + y * w < w * h) by (nonlinear_arith)
        requires
            0 <= x < w,
            0 <= y < h,
    ;
    assert(x + y * w == x2 + y2 * w ==> x == x2 && y == y2) by (nonlinear_arith)
        requires
            0 <= x < w,
            0 <= x2 < w,
            0 <= y,
            0 <= y2,
    ;
}

/// The rows after moving the rows `a .. b` by `steps` rows (down when positive): the moved
/// rows overwrite those where they land, and the rows they left that nothing landed on
/// become empty
pub open spec fn moved_rows<C: CellTrait>(rows: Seq<Seq<C>>, a: int, b: int, steps: int, width: nat) -> Seq<
    Seq<C>,
> {
    Seq::new(
        rows.len(),
        |y: int|
            if a + steps <= y < b + steps {
                rows[y - steps]
            } else if a <= y < b {
                empty_row::<C>(width)
            } else {
                rows[y]
            },
    )
}

/// Rectangular dynamic sized game world: the cells row by row, with the width and the height
pub struct World<Cell> {
    cells: Vec<Cell>,
    width: SizeAxis,
    height: SizeAxis,
}

impl<C> World<C> {
    /// There is a cell for each column of each row, and at least one column
    #[verifier::type_invariant]
    closed spec fn inv(self) -> bool {
        &&& self.width >= 1
        &&& self.cells@.len() == self.width * self.height
    }
}

impl<C: CellTrait> World<C> {
    /// A world of empty cells with the given width and height
    pub fn new(width: SizeAxis, height: SizeAxis) -> (r: Self)
        requires
            width >= 1,
        ensures
            r.width_spec() == width,
            r.height_spec() == height,
            rows_view(&r) == Seq::new(height as nat, |y: int| empty_row::<C>(width as nat)),
    {
        proof {
            assert((width as usize) * (height as usize) <= 65025) by (nonlinear_arith)
                requires
                    width <= 255,
                    height <= 255,
            ;
        }
        let n = (width as usize) * (height as usize);
        let mut cells: Vec<C> = Vec::new();
        let mut i: usize = 0;
        while i < n
            invariant
                i <= n,
                cells@.len() == i,
                forall|j: int| 0 <= j < i ==> cells@[j] == C::empty_cell(),
            decreases n - i,
        {
            cells.push(C::empty());
            i = i + 1;
        }
        let r = World { cells, width, height };
        proof {
            assert forall|y: int| 0 <= y < height implies #[trigger] rows_view(&r)[y] =~= empty_row::<
                C,
            >(width as nat) by {
                assert forall|x: int| 0 <= x < width implies rows_view(&r)[y][x] == C::empty_cell() by {
                    lemma_cell_index(x, y, x, y, width as int, height as int);
                }
            }
            assert(rows_view(&r) =~= Seq::new(height as nat, |y: int| empty_row::<C>(width as nat)));
        }
        r
    }

    /// Whether every cell of row `y` is occupied
    fn row_occupied(&self, y: SizeAxis) -> (r: bool)
        requires
            y < self.height_spec(),
        ensures
            r == row_full(rows_view(self)[y as int]),
    {
        let width = self.width();
        let mut x: SizeAxis = 0;
        while x < width
            invariant
                width == self.width_spec(),
                y < self.height_spec(),
                x <= width,
                forall|i: int| 0 <= i < x ==> #[trigger] rows_view(self)[y as int][i].occupied(),
            decreases width - x,
        {
            let p = Pos { x: x as i16, y: y as i16 };
            assert(rows_view(self)[y as int][x as int] == self.cell_at(p));
            if !self.pos(p).is_occupied() {
                return false;
            }
            x = x + 1;
        }
        true
    }

    /// Clears the rows `y`
    pub fn clear_rows(&mut self, y: Range<SizeAxis>)
        requires
            y.start < y.end,
            y.end <= old(self).height_spec(),
            old(self).width_spec() * y.end <= SizeAxis::MAX,
        ensures
            final(self).width_spec() == old(self).width_spec(),
            final(self).height_spec() == old(self).height_spec(),
            rows_view(final(self)) == Seq::new(
                old(self).height_spec() as nat,
                |r: int|
                    if y.start <= r < y.end {
                        empty_row::<C>(old(self).width_spec() as nat)
                    } else {
                        rows_view(old(self))[r]
                    },
            ),
    {
        let mut r = y.start;
        while r < y.end
            invariant
                y.start <= r <= y.end,
                y.end <= old(self).height_spec(),
                self.width_spec() == old(self).width_spec(),
                self.height_spec() == old(self).height_spec(),
                rows_view(self) == Seq::new(
                    old(self).height_spec() as nat,
                    |q: int|
                        if y.start <= q < r {
                            empty_row::<C>(old(self).width_spec() as nat)
                        } else {
                            rows_view(old(self))[q]
                        },
                ),
            decreases y.end - r,
        {
            self.clear_row(r);
            proof {
                assert(rows_view(self) =~= Seq::new(
                    old(self).height_spec() as nat,
                    |q: int|
                        if y.start <= q < r + 1 {
                            empty_row::<C>(old(self).width_spec() as nat)
                        } else {
                            rows_view(old(self))[q]
                        },
                ));
            }
            r = r + 1;
        }
    }

    /// Moves the rows `y` by `steps` rows (down when positive): they overwrite the rows where
    /// they land, and the rows they left that nothing landed on are cleared
    pub fn move_rows(&mut self, y: Range<SizeAxis>, steps: PosAxis)
        requires
            y.start < y.end,
            y.end <= old(self).height_spec(),
            steps != 0,
            y.start + steps > 0,
            y.end + steps < old(self).height_spec(),
            steps > 0 || -steps >= y.end - y.start,
            old(self).width_spec() * y.end <= SizeAxis::MAX,
        ensures
            final(self).width_spec() == old(self).width_spec(),
            final(self).height_spec() == old(self).height_spec(),
            rows_view(final(self)) == moved_rows(
                rows_view(old(self)),
                y.start as int,
                y.end as int,
                steps as int,
                old(self).width_spec() as nat,
            ),
    {
        let ghost rows0 = rows_view(self);
        let ghost h = self.height_spec() as int;
        let a = y.start;
        let b = y.end;
        if steps > 0 {
            let s = steps as SizeAxis;
            // From the last row up, so that no row is overwritten before it moved
            let mut r = b;
            while r > a
                invariant
                    a <= r <= b,
                    b as int + s < h,
                    s > 0,
                    steps == s,
                    h == self.height_spec(),
                    self.width_spec() == old(self).width_spec(),
                    rows0 == rows_view(old(self)),
                    rows_view(self) == Seq::new(
                        h as nat,
                        |q: int|
                            if r + s <= q < b + s {
                                rows0[q - s]
                            } else {
                                rows0[q]
                            },
                    ),
                decreases r - a,
            {
                r = r - 1;
                self.copy_row(r, r + s);
                proof {
                    assert(rows_view(self) =~= Seq::new(
                        h as nat,
                        |q: int|
                            if r + s <= q < b + s {
                                rows0[q - s]
                            } else {
                                rows0[q]
                            },
                    ));
                }
            }
            let clear_end = if a + s < b {
                a + s
            } else {
                b
            };
            proof {
                let w = self.width_spec();
                assert(w * clear_end <= w * b) by (nonlinear_arith)
                    requires
                        clear_end <= b,
                        w >= 0,
                ;
            }
            self.clear_rows(a..clear_end);
            proof {
                assert(rows_view(self) =~= moved_rows(rows0, a as int, b as int, s as int, old(self).width_spec() as nat));
            }
        } else {
            let s = (-steps) as SizeAxis;
            // From the first row down, so that no row is overwritten before it moved
            let mut r = a;
            while r < b
                invariant
                    a <= r <= b,
                    a as int - s > 0,
                    s as int >= b - a,
                    steps == -s,
                    h == self.height_spec(),
                    b <= h,
                    self.width_spec() == old(self).width_spec(),
                    rows0 == rows_view(old(self)),
                    rows_view(self) == Seq::new(
                        h as nat,
                        |q: int|
                            if a - s <= q < r - s {
                                rows0[q + s]
                            } else {
                                rows0[q]
                            },
                    ),
                decreases b - r,
            {
                self.copy_row(r, r - s);
                proof {
                    assert(rows_view(self) =~= Seq::new(
                        h as nat,
                        |q: int|
                            if a - s <= q < r + 1 - s {
                                rows0[q + s]
                            } else {
                                rows0[q]
                            },
                    ));
                }
                r = r + 1;
            }
            self.clear_rows(a..b);
            proof {
                assert(rows_view(self) =~= moved_rows(rows0, a as int, b as int, steps as int, old(self).width_spec() as nat));
            }
        }
    }
}

impl<C: CellTrait> RectangularBound for World<C> {
    open spec fn start(&self) -> Pos {
        Pos { x: 0, y: 0 }
    }

    /// The width (never zero: the type's invariant keeps at least one column)
    closed spec fn width_spec(&self) -> SizeAxis {
        if self.width == 0 {
            1
        } else {
            self.width
        }
    }

    /// The height
    closed spec fn height_spec(&self) -> SizeAxis {
        self.height
    }

    fn bound_start(&self) -> (r: Pos) {
        Pos { x: 0, y: 0 }
    }

    fn width(&self) -> (r: SizeAxis) {
        proof {
            use_type_invariant(self);
        }
        self.width
    }

    fn height(&self) -> (r: SizeAxis) {
        proof {
            use_type_invariant(self);
        }
        self.height
    }
}

impl<C: CellTrait> Grid for World<C> {
    type Cell = C;

    open spec fn oob(&self, pos: Pos) -> bool {
        !grid::in_rect(self, pos)
    }

    closed spec fn cell_at(&self, pos: Pos) -> C {
        self.cells@[cell_index(pos.x as int, pos.y as int, self.width as int)]
    }

    fn is_out_of_bounds(&self, pos: Pos) -> (r: bool) {
        grid::is_position_outside_rectangle(self, pos)
    }

    fn pos(&self, pos: Pos) -> (c: C) {
        proof {
            use_type_invariant(self);
            lemma_cell_index(
                pos.x as int,
                pos.y as int,
                pos.x as int,
                pos.y as int,
                self.width as int,
                self.height as int,
            );
            assert((pos.y as usize) * (self.width as usize) <= 65025) by (nonlinear_arith)
                requires
                    0 <= pos.y < 256,
                    self.width <= 255,
            ;
        }
        self.cells[pos.x as usize + (pos.y as usize) * (self.width as usize)]
    }
}

impl<C: CellTrait> WorldTrait for World<C> {
    proof fn lemma_bounds(&self) {
    }

    fn set_pos(&mut self, x: usize, y: usize, state: C) {
        proof {
            use_type_invariant(&*self);
            lemma_cell_index(x as int, y as int, x as int, y as int, self.width as int, self.height as int);
            assert(y * (self.width as usize) <= 65025) by (nonlinear_arith)
                requires
                    y < 256,
                    self.width <= 255,
            ;
        }
        let ghost rows0 = rows_view(self);
        let i = x + y * (self.width as usize);
        self.cells[i] = state;
        proof {
            assert forall|q: int, p: int| 0 <= q < self.height && 0 <= p < self.width implies #[trigger] rows_view(self)[q][p]
                == rows0.update(y as int, rows0[y as int].update(x as int, state))[q][p] by {
                lemma_cell_index(p, q, x as int, y as int, self.width as int, self.height as int);
            }
            assert(rows_view(self) =~~= rows0.update(y as int, rows0[y as int].update(x as int, state)));
        }
    }

    fn shape_intersects(&self, shape: &RotatedShape, pos: Pos) -> (r: CellIntersection) {
        super::shape_intersects(self, shape, pos)
    }

    fn handle_full_rows(&mut self, y_check: Range<SizeAxis>) -> (r: SizeAxis)
    {
        let a = y_check.start;
        let b = y_check.end;
        let height = self.height();
        let ghost w = self.width_spec() as nat;
        let ghost old_rows = rows_view(self);
        proof {
            assert(old_rows.subrange(b as int, b as int) =~= Seq::<Seq<C>>::empty());
            assert(cleared_rows(old_rows, b as int, b as int, w) =~= old_rows);
        }
        let mut terminated_rows: SizeAxis = 0;
        let mut j: SizeAxis = b;
        while j > a
            invariant
                a < b <= height,
                height == old(self).height_spec(),
                w == old(self).width_spec(),
                a <= j <= b,
                old_rows == rows_view(old(self)),
                same_frame(self, old(self)),
                terminated_rows == full_rows_count(old_rows, j as int, b as int),
                rows_view(self) == cleared_rows(old_rows, j as int, b as int, w),
            decreases j - a,
        {
            proof {
                lemma_kept_rows_len(old_rows.subrange(j as int, b as int));
                lemma_kept_rows_step(old_rows, j as int, b as int);
            }
            let ghost cur = rows_view(self);
            j = j - 1;
            let y_lowest = j + terminated_rows;
            assert(cur[y_lowest as int] == old_rows[j as int]);
            if self.row_occupied(y_lowest) {
                terminated_rows = terminated_rows + 1;
                let mut y = y_lowest;
                while y > 0
                    invariant
                        y <= y_lowest < height,
                        height == old(self).height_spec(),
                        cur.len() == height,
                        same_frame(self, old(self)),
                        rows_view(self) == cur.subrange(0, y + 1) + cur.subrange(y as int, y_lowest as int)
                            + cur.subrange(y_lowest + 1, height as int),
                    decreases y,
                {
                    y = y - 1;
                    self.copy_row(y, y + 1);
                    assert(rows_view(self) =~= cur.subrange(0, y + 1) + cur.subrange(
                        y as int,
                        y_lowest as int,
                    ) + cur.subrange(y_lowest + 1, height as int));
                }
                self.clear_row(0);
                proof {
                    assert(rows_view(self) =~= seq![empty_row::<C>(w)] + cur.subrange(
                        0,
                        y_lowest as int,
                    ) + cur.subrange(y_lowest + 1, height as int));
                    assert(rows_view(self) =~= cleared_rows(old_rows, j as int, b as int, w));
                }
            } else {
                proof {
                    assert(rows_view(self) =~= cleared_rows(old_rows, j as int, b as int, w));
                }
            }
        }
        terminated_rows
    }

    fn clear_row(&mut self, y: SizeAxis) {
        let width = self.width();
        let ghost rows0 = rows_view(self);
        proof {
            assert(rows0.update(
                y as int,
                Seq::new(
                    width as nat,
                    |p: int|
                        if p < 0 {
                            C::empty_cell()
                        } else {
                            rows0[y as int][p]
                        },
                ),
            ) =~~= rows0);
        }
        let mut x: SizeAxis = 0;
        while x < width
            invariant
                width == self.width_spec(),
                width == old(self).width_spec(),
                self.height_spec() == old(self).height_spec(),
                y < self.height_spec(),
                x <= width,
                rows0 == rows_view(old(self)),
                rows_view(self) == rows0.update(
                    y as int,
                    Seq::new(
                        width as nat,
                        |p: int|
                            if p < x {
                                C::empty_cell()
                            } else {
                                rows0[y as int][p]
                            },
                    ),
                ),
            decreases width - x,
        {
            let e = C::empty();
            let ghost before = rows_view(self);
            self.set_pos(x as usize, y as usize, e);
            proof {
                assert(rows_view(self) =~~= rows0.update(
                    y as int,
                    Seq::new(
                        width as nat,
                        |p: int|
                            if p < x + 1 {
                                C::empty_cell()
                            } else {
                                rows0[y as int][p]
                            },
                    ),
                ));
            }
            x = x + 1;
        }
        proof {
            assert(rows_view(self) =~~= rows0.update(y as int, empty_row::<C>(width as nat)));
        }
    }

    fn copy_row(&mut self, y_from: SizeAxis, y_to: SizeAxis) {
        let width = self.width();
        let ghost rows0 = rows_view(self);
        proof {
            assert(rows0.update(
                y_to as int,
                Seq::new(
                    width as nat,
                    |p: int|
                        if p < 0 {
                            rows0[y_from as int][p]
                        } else {
                            rows0[y_to as int][p]
                        },
                ),
            ) =~~= rows0);
        }
        let mut x: SizeAxis = 0;
        while x < width
            invariant
                width == self.width_spec(),
                width == old(self).width_spec(),
                self.height_spec() == old(self).height_spec(),
                y_from != y_to,
                y_from < self.height_spec(),
                y_to < self.height_spec(),
                x <= width,
                rows0 == rows_view(old(self)),
                rows_view(self) == rows0.update(
                    y_to as int,
                    Seq::new(
                        width as nat,
                        |p: int|
                            if p < x {
                                rows0[y_from as int][p]
                            } else {
                                rows0[y_to as int][p]
                            },
                    ),
                ),
            decreases width - x,
        {
            let p = Pos { x: x as i16, y: y_from as i16 };
            proof {
                self.lemma_bounds();
            }
            let cell = self.pos(p);
            assert(cell == rows_view(self)[y_from as int][x as int]);
            self.set_pos(x as usize, y_to as usize, cell);
            proof {
                assert(rows_view(self) =~~= rows0.update(
                    y_to as int,
                    Seq::new(
                        width as nat,
                        |q: int|
                            if q < x + 1 {
                                rows0[y_from as int][q]
                            } else {
                                rows0[y_to as int][q]
                            },
                    ),
                ));
            }
            x = x + 1;
        }
        proof {
            assert(rows_view(self) =~~= rows0.update(y_to as int, rows0[y_from as int]));
        }
    }
}

} // verus!
