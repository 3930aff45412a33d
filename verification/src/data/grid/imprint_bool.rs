use vstd::prelude::*;

use crate::data::cell::Cell;
use super::Grid as GridTrait;
use super::{Pos, RectangularBound, SizeAxis};

verus! {

/// Imprints `b` on `a`: a cell is occupied where `a`'s cell is occupied, or where `b` is in
/// bounds and its cell is occupied. The bounds are those of `a`.
#[derive(Copy, Clone)]
pub struct Grid<'a, 'b, GA: 'a, GB: 'b> {
    pub a: &'a GA,
    pub b: &'b GB,
}

impl<'a, 'b, GA, GB> GridTrait for Grid<'a, 'b, GA, GB> where GA: GridTrait + 'a, GB: GridTrait + 'b {
    type Cell = bool;

    open spec fn oob(&self, pos: Pos) -> bool {
        self.a.oob(pos)
    }

    open spec fn cell_at(&self, pos: Pos) -> bool {
        self.a.cell_at(pos).occupied() || (!self.b.oob(pos) && self.b.cell_at(pos).occupied())
    }

    fn is_out_of_bounds(&self, pos: Pos) -> (r: bool) {
        self.a.is_out_of_bounds(pos)
    }

    fn pos(&self, pos: Pos) -> (c: bool) {
        if self.a.pos(pos).is_occupied() {
            true
        } else {
            if self.b.is_out_of_bounds(pos) {
                false
            } else {
                self.b.pos(pos).is_occupied()
            }
        }
    }
}

impl<'a, 'b, GA, GB> RectangularBound for Grid<'a, 'b, GA, GB> where
    GA: RectangularBound + 'a,
    GB: 'b,
 {
    open spec fn start(&self) -> Pos {
        self.a.start()
    }

    open spec fn width_spec(&self) -> SizeAxis {
        self.a.width_spec()
    }

    open spec fn height_spec(&self) -> SizeAxis {
        self.a.height_spec()
    }

    fn bound_start(&self) -> (r: Pos) {
        self.a.bound_start()
    }

    fn width(&self) -> (r: SizeAxis) {
        self.a.width()
    }

    fn height(&self) -> (r: SizeAxis) {
        self.a.height()
    }
}

} // verus!
