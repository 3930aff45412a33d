use vstd::prelude::*;

use crate::data::cell::Cell;
use super::Grid as GridTrait;
use super::{Pos, RectangularBound, SizeAxis};

verus! {

/// The smaller of two position axes
pub open spec fn min_axis(a: i16, b: i16) -> i16 {
    if a < b {
        a
    } else {
        b
    }
}

/// The greater of two integers
pub open spec fn max_int(a: int, b: int) -> int {
    if a > b {
        a
    } else {
        b
    }
}

/// This grid only contains the cells where the cell occupation from both differs: a cell is
/// occupied where `a`'s is and `b`'s is not. Out of bounds where either is.
pub struct Grid<'a, 'b, GA: 'a, GB: 'b> {
    pub a: &'a GA,
    pub b: &'b GB,
}

impl<'a, 'b, GA, GB> GridTrait for Grid<'a, 'b, GA, GB> where GA: GridTrait + 'a, GB: GridTrait + 'b {
    type Cell = bool;

    open spec fn oob(&self, pos: Pos) -> bool {
        self.a.oob(pos) || self.b.oob(pos)
    }

    open spec fn cell_at(&self, pos: Pos) -> bool {
        self.a.cell_at(pos).occupied() && !self.b.cell_at(pos).occupied()
    }

    fn is_out_of_bounds(&self, pos: Pos) -> (r: bool) {
        self.a.is_out_of_bounds(pos) || self.b.is_out_of_bounds(pos)
    }

    fn pos(&self, pos: Pos) -> (c: bool) {
        self.a.pos(pos).is_occupied() && !self.b.pos(pos).is_occupied()
    }
}

impl<'a, 'b, GA, GB> RectangularBound for Grid<'a, 'b, GA, GB> where
    GA: RectangularBound + 'a,
    GB: RectangularBound + 'b,
 {
    /// The smaller start of both, on each axis
    open spec fn start(&self) -> Pos {
        Pos {
            x: min_axis(self.a.start().x, self.b.start().x),
            y: min_axis(self.a.start().y, self.b.start().y),
        }
    }

    /// From the smaller start to the greater end of both (truncated to a size axis)
    open spec fn width_spec(&self) -> SizeAxis {
        (max_int(self.a.start().x + self.a.width_spec(), self.b.start().x + self.b.width_spec())
            - self.start().x) as u8
    }

    open spec fn height_spec(&self) -> SizeAxis {
        (max_int(self.a.start().y + self.a.height_spec(), self.b.start().y + self.b.height_spec())
            - self.start().y) as u8
    }

    fn bound_start(&self) -> (r: Pos) {
        let a_start = self.a.bound_start();
        let b_start = self.b.bound_start();
        Pos {
            x: if a_start.x < b_start.x {
                a_start.x
            } else {
                b_start.x
            },
            y: if a_start.y < b_start.y {
                a_start.y
            } else {
                b_start.y
            },
        }
    }

    fn width(&self) -> (r: SizeAxis) {
        let a_end = self.a.bound_start().x as i32 + self.a.width() as i32;
        let b_end = self.b.bound_start().x as i32 + self.b.width() as i32;
        let end = if a_end > b_end {
            a_end
        } else {
            b_end
        };
        let span = end - self.bound_start().x as i32;
        #[verifier::truncate]
        (span as u8)
    }

    fn height(&self) -> (r: SizeAxis) {
        let a_end = self.a.bound_start().y as i32 + self.a.height() as i32;
        let b_end = self.b.bound_start().y as i32 + self.b.height() as i32;
        let end = if a_end > b_end {
            a_end
        } else {
            b_end
        };
        let span = end - self.bound_start().y as i32;
        #[verifier::truncate]
        (span as u8)
    }
}

} // verus!
