use vstd::prelude::*;

use crate::data::cell::Cell;
use super::Grid as GridTrait;
use super::{axis_fits, Pos, PosAxis, RectangularBound, SizeAxis};

verus! {

/// The union of two grids: where `a`'s cell is empty, `b`'s cell at the position moved by
/// `(b_x, b_y)` shows through (when that position is in `b`'s bounds). The bounds are those
/// of `a`.
pub struct Grid<'ga, 'gb, GA: 'ga, GB: 'gb> {
    pub a: &'ga GA,
    pub b: &'gb GB,
    pub b_x: PosAxis,
    pub b_y: PosAxis,
}

impl<'ga, 'gb, GA, GB> Grid<'ga, 'gb, GA, GB> where
    GA: GridTrait + 'ga,
    GB: GridTrait<Cell = <GA as GridTrait>::Cell> + 'gb,
 {
    /// Whether `b` has a cell for the position `pos` of the union
    pub open spec fn b_has(&self, pos: Pos) -> bool {
        &&& axis_fits(self.b_x + pos.x)
        &&& axis_fits(self.b_y + pos.y)
        &&& !self.b.oob(Pos { x: (self.b_x + pos.x) as i16, y: (self.b_y + pos.y) as i16 })
    }
}

impl<'ga, 'gb, GA, GB> GridTrait for Grid<'ga, 'gb, GA, GB> where
    GA: GridTrait + 'ga,
    GB: GridTrait<Cell = <GA as GridTrait>::Cell> + 'gb,
 {
    type Cell = <GA as GridTrait>::Cell;

    open spec fn oob(&self, pos: Pos) -> bool {
        self.a.oob(pos)
    }

    open spec fn cell_at(&self, pos: Pos) -> Self::Cell {
        if !self.a.cell_at(pos).occupied() && self.b_has(pos) {
            self.b.cell_at(Pos { x: (self.b_x + pos.x) as i16, y: (self.b_y + pos.y) as i16 })
        } else {
            self.a.cell_at(pos)
        }
    }

    fn is_out_of_bounds(&self, pos: Pos) -> (r: bool) {
        self.a.is_out_of_bounds(pos)
    }

    fn pos(&self, pos: Pos) -> (c: Self::Cell) {
        let out = self.a.pos(pos);
        if out.is_empty() {
            match (self.b_x.checked_add(pos.x), self.b_y.checked_add(pos.y)) {
                (Some(x), Some(y)) => {
                    let shifted = Pos { x, y };
                    if self.b.is_out_of_bounds(shifted) {
                        out
                    } else {
                        self.b.pos(shifted)
                    }
                },
                _ => out,
            }
        } else {
            out
        }
    }
}

impl<'ga, 'gb, GA, GB> RectangularBound for Grid<'ga, 'gb, GA, GB> where
    GA: RectangularBound + 'ga,
    GB: 'gb,
 {
    open spec fn start(&self) -> Pos {
        self.a.start()
    }

    open spec fn width_spec(&self) -> SizeAxis {
        self.a.width_spec()
    }

    open spec fn height_spec(&self) -> SizeAxis {
        self.a.height_spec()
    }

    fn bound_start(&self) -> (r: Pos) {
        self.a.bound_start()
    }

    fn width(&self) -> (r: SizeAxis) {
        self.a.width()
    }

    fn height(&self) -> (r: SizeAxis) {
        self.a.height()
    }
}

} // verus!
