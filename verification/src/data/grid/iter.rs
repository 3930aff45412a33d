use vstd::prelude::*;

use super::{in_rect, offset, rect_fits, Grid, Pos, RectangularBound, Size};

verus! {

/// Every position of the grid's rectangle is in bounds
pub open spec fn full_rect<G: Grid + RectangularBound>(g: &G) -> bool {
    forall|p: Pos| #![trigger in_rect(g, p)] in_rect(g, p) ==> !g.oob(p)
}

/// Iterates through every cell of a grid's rectangle, row by row, yielding the positions
/// relative to the rectangle's start with the cells
pub struct PositionedCellIter<'g, G: 'g> {
    map: &'g G,
    pos: Size,
}

/// Having passed `i < w * h` cells, with the cursor at `(x, y)`, the next cell is the one at
/// the cursor, or the first of the next row when the cursor is after the last column
proof fn lemma_next_cell(w: int, h: int, x: int, y: int, i: int)
    requires
        w > 0,
        0 <= x <= w,
        0 <= y,
        y * w + x == i,
        0 <= i < w * h,
    ensures
        x == w ==> (y + 1) * w + 0 == i && y + 1 < h,
        x < w ==> y < h,
{
    assert(x == w ==> (y + 1) * w + 0 == i && y + 1 < h) by (nonlinear_arith)
        requires
            w > 0,
            0 <= y,
            y * w + x == i,
            i < w * h,
    ;
    assert(x < w ==> y < h) by (nonlinear_arith)
        requires
            w > 0,
            0 <= x,
            y * w + x == i,
            i < w * h,
    ;
}

impl<'g, G> PositionedCellIter<'g, G> where G: Grid + RectangularBound {
    /// The grid being iterated
    pub closed spec fn map(&self) -> &'g G {
        self.map
    }

    /// The next relative position to look at (its column may be just after the last one)
    pub closed spec fn cursor(&self) -> Size {
        self.pos
    }

    /// The cursor lies in the rectangle or just after its last column, or it is just after
    /// the last row
    pub open spec fn wf(&self) -> bool {
        &&& rect_fits(self.map())
        &&& full_rect(self.map())
        &&& self.map().width_spec() > 0
        &&& self.cursor().x <= self.map().width_spec()
        &&& self.cursor().y <= self.map().height_spec()
        &&& self.cursor().y == self.map().height_spec() ==> self.cursor().x == 0
    }

    /// Starts at the first cell
    pub fn new(map: &'g G) -> (it: Self)
        ensures
            it.map() == map,
            it.cursor() == (Size { x: 0, y: 0 }),
    {
        PositionedCellIter { map, pos: Size { x: 0, y: 0 } }
    }

    /// One step from `self` to `next`, yielding `r`: the cell at the cursor (or at the start
    /// of the next row, when the cursor is after the last column) while there is one, else
    /// nothing
    pub open spec fn step(&self, next: &Self, r: Option<(Size, G::Cell)>) -> bool {
        let w = self.map().width_spec();
        let h = self.map().height_spec();
        let c = self.cursor();
        let at = if c.x == w {
            Size { x: 0, y: (c.y + 1) as u8 }
        } else {
            c
        };
        &&& next.map() == self.map()
        &&& if at.y == h {
            r is None && next.cursor() == at
        } else {
            &&& r == Some(
                (at, self.map().cell_at(offset(self.map().start(), at.x as int, at.y as int))),
            )
            &&& next.cursor() == (Size { x: (at.x + 1) as u8, y: at.y })
        }
    }

    /// Yields the next relative position and its cell, until the last cell of the last row
    pub fn next(&mut self) -> (r: Option<(Size, G::Cell)>)
        requires
            old(self).wf(),
        ensures
            final(self).wf(),
            old(self).step(final(self), r),
    {
        if self.pos.x == self.map.width() {
            self.pos.x = 0;
            self.pos.y = self.pos.y + 1;
        }
        if self.pos.y == self.map.height() {
            return None;
        }
        let x = self.pos.x;
        self.pos.x = self.pos.x + 1;
        let start = self.map.bound_start();
        let p = Pos { x: start.x + x as i16, y: start.y + self.pos.y as i16 };
        assert(in_rect(self.map, p));
        Some((Size { x, y: self.pos.y }, self.map.pos(p)))
    }

    /// After `i` steps from the first cell, the cursor has passed `i` cells (just after the
    /// last one it yielded), until it passed all `w * h` of them; after that it rests after
    /// the last row
    proof fn lemma_cursor(states: Seq<Self>, outs: Seq<Option<(Size, G::Cell)>>, i: int)
        requires
            states.len() == outs.len() + 1,
            states[0].wf(),
            states[0].cursor() == (Size { x: 0, y: 0 }),
            forall|j: int|
                #![trigger outs[j]]
                0 <= j < outs.len() ==> states[j].step(&states[j + 1], outs[j]),
            0 <= i < states.len(),
        ensures
            states[i].map() == states[0].map(),
            ({
                let w = states[0].map().width_spec() as int;
                let h = states[0].map().height_spec() as int;
                let c = states[i].cursor();
                &&& i <= w * h ==> {
                    &&& c.y * w + c.x == i
                    &&& c.x <= w
                    &&& i > 0 ==> c.x >= 1
                }
                &&& i > w * h ==> c == (Size { x: 0, y: h as u8 })
            }),
        decreases i,
    {
        let w = states[0].map().width_spec() as int;
        let h = states[0].map().height_spec() as int;
        assert(0 <= w * h) by (nonlinear_arith)
            requires
                0 <= w,
                0 <= h,
        ;
        if i > 0 {
            Self::lemma_cursor(states, outs, i - 1);
            let o = outs[i - 1];
            let c = states[i - 1].cursor();
            if i - 1 < w * h {
                lemma_next_cell(w, h, c.x as int, c.y as int, i - 1);
            } else if i - 1 == w * h {
                if w * h > 0 {
                    assert(c.x == w && c.y == h - 1) by (nonlinear_arith)
                        requires
                            c.y * w + c.x == w * h,
                            1 <= c.x <= w,
                            0 <= c.y,
                    ;
                } else {
                    assert(h == 0 && c.x == 0 && c.y == 0) by (nonlinear_arith)
                        requires
                            w * h == 0,
                            w > 0,
                            0 <= h,
                            c.y * w + c.x == 0,
                            0 <= c.x,
                            0 <= c.y,
                    ;
                }
            }
        }
    }

    /// Iterating over a grid whose rectangle has `w > 0` columns and `h` rows, all of them
    /// in bounds, yields each relative position in row-major order with its cell, `w * h`
    /// items in all, and then nothing: along any run of steps from the first cell, the `i`-th
    /// item is column `i % w` of row `i / w` while `i < w * h`, and `None` after that
    pub proof fn law_yields_each_cell_once(states: Seq<Self>, outs: Seq<Option<(Size, G::Cell)>>)
        requires
            states.len() == outs.len() + 1,
            states[0].wf(),
            states[0].cursor() == (Size { x: 0, y: 0 }),
            forall|i: int|
                #![trigger outs[i]]
                0 <= i < outs.len() ==> states[i].step(&states[i + 1], outs[i]),
        ensures
            forall|i: int|
                0 <= i < outs.len() ==> #[trigger] outs[i] == ({
                    let m = states[0].map();
                    let w = m.width_spec() as int;
                    if i < w * m.height_spec() {
                        Some(
                            (
                                Size { x: (i % w) as u8, y: (i / w) as u8 },
                                m.cell_at(offset(m.start(), i % w, i / w)),
                            ),
                        )
                    } else {
                        None
                    }
                }),
    {
        let m = states[0].map();
        let w = m.width_spec() as int;
        let h = m.height_spec() as int;
        assert forall|i: int| 0 <= i < outs.len() implies #[trigger] outs[i] == (if i < w * h {
            Some(
                (
                    Size { x: (i % w) as u8, y: (i / w) as u8 },
                    m.cell_at(offset(m.start(), i % w, i / w)),
                ),
            )
        } else {
            None
        }) by {
            Self::lemma_cursor(states, outs, i);
            Self::lemma_cursor(states, outs, i + 1);
            let c = states[i].cursor();
            if i < w * h {
                lemma_next_cell(w, h, c.x as int, c.y as int, i);
                if c.x == w {
                    vstd::arithmetic::div_mod::lemma_fundamental_div_mod_converse(
                        i,
                        w,
                        c.y + 1,
                        0,
                    );
                } else {
                    vstd::arithmetic::div_mod::lemma_fundamental_div_mod_converse(
                        i,
                        w,
                        c.y as int,
                        c.x as int,
                    );
                }
            } else if i == w * h {
                if w * h > 0 {
                    assert(c.x == w && c.y == h - 1) by (nonlinear_arith)
                        requires
                            c.y * w + c.x == w * h,
                            1 <= c.x <= w,
                            0 <= c.y,
                    ;
                } else {
                    assert(h == 0) by (nonlinear_arith)
                        requires
                            w * h == 0,
                            w > 0,
                            0 <= h,
                    ;
                }
            }
        }
    }
}

} // verus!
