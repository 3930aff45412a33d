//! Two-dimensional grids: positions, sizes, the grid traits and grid adaptors

pub mod cells_iter;
pub mod column;
pub mod columns_iter;
pub mod difference;
pub mod imprint_bool;
pub mod iter;
pub mod occupancy;
pub mod printer;
pub mod row;
pub mod rows_iter;
pub mod translate;
pub mod union;

use vstd::prelude::*;

use crate::data::cell::Cell as CellTrait;

verus! {

/// Signed integer type used for describing a position axis.
/// The range of `PosAxis` contains the whole range (also including the negative range) of `SizeAxis`.
pub type PosAxis = i16;

/// Unsigned integer type used for describing a size axis.
pub type SizeAxis = u8;

/// Whether an integer fits in a position axis
pub open spec fn axis_fits(v: int) -> bool {
    i16::MIN <= v <= i16::MAX
}

/// Describes a two dimensional position
#[derive(Copy, Clone, Debug, PartialEq, Eq, Structural)]
pub struct Pos {
    pub x: PosAxis,
    pub y: PosAxis,
}

/// Describes a two dimensional size
#[derive(Copy, Clone, Debug, PartialEq, Eq, Structural)]
pub struct Size {
    pub x: SizeAxis,
    pub y: SizeAxis,
}

/// The position `p + (dx, dy)` in spec, for offsets that are known to fit
pub open spec fn offset(p: Pos, dx: int, dy: int) -> Pos {
    Pos { x: (p.x + dx) as i16, y: (p.y + dy) as i16 }
}

impl Pos {
    /// Component-wise sum
    pub fn add(self, other: Pos) -> (r: Pos)
        requires
            axis_fits(self.x + other.x),
            axis_fits(self.y + other.y),
        ensures
            r.x == self.x + other.x,
            r.y == self.y + other.y,
    {
        Pos { x: self.x + other.x, y: self.y + other.y }
    }

    /// Component-wise difference
    pub fn sub(self, other: Pos) -> (r: Pos)
        requires
            axis_fits(self.x - other.x),
            axis_fits(self.y - other.y),
        ensures
            r.x == self.x - other.x,
            r.y == self.y - other.y,
    {
        Pos { x: self.x - other.x, y: self.y - other.y }
    }

    /// Component-wise negation
    pub fn neg(self) -> (r: Pos)
        requires
            self.x != i16::MIN,
            self.y != i16::MIN,
        ensures
            r.x == -self.x,
            r.y == -self.y,
    {
        Pos { x: -self.x, y: -self.y }
    }

    /// Adds a size to a position
    pub fn add_size(self, other: Size) -> (r: Pos)
        requires
            axis_fits(self.x + other.x),
            axis_fits(self.y + other.y),
        ensures
            r.x == self.x + other.x,
            r.y == self.y + other.y,
    {
        Pos { x: self.x + other.x as PosAxis, y: self.y + other.y as PosAxis }
    }

    /// Subtracts a size from a position
    pub fn sub_size(self, other: Size) -> (r: Pos)
        requires
            axis_fits(self.x - other.x),
            axis_fits(self.y - other.y),
        ensures
            r.x == self.x - other.x,
            r.y == self.y - other.y,
    {
        Pos { x: self.x - other.x as PosAxis, y: self.y - other.y as PosAxis }
    }

    /// The same position with another x
    pub fn with_x(self, x: PosAxis) -> (r: Pos)
        ensures
            r == (Pos { x, y: self.y }),
    {
        Pos { x, y: self.y }
    }

    /// The same position with another y
    pub fn with_y(self, y: PosAxis) -> (r: Pos)
        ensures
            r == (Pos { x: self.x, y }),
    {
        Pos { x: self.x, y }
    }

    /// Sets x and returns the position as it was before
    pub fn and_then_x(&mut self, x: PosAxis) -> (r: Pos)
        ensures
            *final(self) == (Pos { x, y: old(self).y }),
            r == *old(self),
    {
        let old_x = self.x;
        self.x = x;
        self.with_x(old_x)
    }

    /// Sets y and returns the new position with its x replaced by the old y
    pub fn and_then_y(&mut self, y: PosAxis) -> (r: Pos)
        ensures
            *final(self) == (Pos { x: old(self).x, y }),
            r == (Pos { x: old(self).y, y }),
    {
        let old_y = self.y;
        self.y = y;
        self.with_x(old_y)
    }

    /// Sets both axes and returns the position as it was before
    pub fn and_then(&mut self, x: PosAxis, y: PosAxis) -> (r: Pos)
        ensures
            *final(self) == (Pos { x, y }),
            r == *old(self),
    {
        let copy = *self;
        self.x = x;
        self.y = y;
        copy
    }
}

impl Size {
    /// Component-wise sum
    pub fn add(self, other: Size) -> (r: Size)
        requires
            self.x + other.x <= u8::MAX,
            self.y + other.y <= u8::MAX,
        ensures
            r.x == self.x + other.x,
            r.y == self.y + other.y,
    {
        Size { x: self.x + other.x, y: self.y + other.y }
    }

    /// Component-wise difference
    pub fn sub(self, other: Size) -> (r: Size)
        requires
            self.x >= other.x,
            self.y >= other.y,
        ensures
            r.x == self.x - other.x,
            r.y == self.y - other.y,
    {
        Size { x: self.x - other.x, y: self.y - other.y }
    }

    /// Adds a position to a size, giving a position
    pub fn add_pos(self, other: Pos) -> (r: Pos)
        requires
            axis_fits(self.x + other.x),
            axis_fits(self.y + other.y),
        ensures
            r.x == self.x + other.x,
            r.y == self.y + other.y,
    {
        other.add_size(self)
    }

    /// The same size with another x
    pub fn with_x(self, x: SizeAxis) -> (r: Size)
        ensures
            r == (Size { x, y: self.y }),
    {
        Size { x, y: self.y }
    }

    /// The same size with another y
    pub fn with_y(self, y: SizeAxis) -> (r: Size)
        ensures
            r == (Size { x: self.x, y }),
    {
        Size { x: self.x, y }
    }

    /// Sets x and returns the size as it was before
    pub fn and_then_x(&mut self, x: SizeAxis) -> (r: Size)
        ensures
            *final(self) == (Size { x, y: old(self).y }),
            r == *old(self),
    {
        let old_x = self.x;
        self.x = x;
        self.with_x(old_x)
    }

    /// Sets y and returns the new size with its x replaced by the old y
    pub fn and_then_y(&mut self, y: SizeAxis) -> (r: Size)
        ensures
            *final(self) == (Size { x: old(self).x, y }),
            r == (Size { x: old(self).y, y }),
    {
        let old_y = self.y;
        self.y = y;
        self.with_x(old_y)
    }

    /// Sets both axes and returns the size as it was before
    pub fn and_then(&mut self, x: SizeAxis, y: SizeAxis) -> (r: Size)
        ensures
            *final(self) == (Size { x, y }),
            r == *old(self),
    {
        let copy = *self;
        self.x = x;
        self.y = y;
        copy
    }
}

/// Common trait for a two-dimensional (2D) grid
pub trait Grid {
    type Cell: CellTrait;

    /// Whether the given position is out of bounds
    spec fn oob(&self, pos: Pos) -> bool;

    /// The cell at the given position, meaningful where the position is in bounds
    spec fn cell_at(&self, pos: Pos) -> Self::Cell;

    /// Returns whether the given position is out of bounds
    fn is_out_of_bounds(&self, pos: Pos) -> (r: bool)
        ensures
            r == self.oob(pos),
    ;

    /// Returns the cell at the given position, which must be in bounds
    fn pos(&self, pos: Pos) -> (c: Self::Cell)
        requires
            !self.oob(pos),
        ensures
            c == self.cell_at(pos),
    ;

    /// Returns the cell at the given position if it is in bounds.
    /// `None` will be returned when out of bounds
    fn position(&self, pos: Pos) -> (r: Option<Self::Cell>)
        ensures
            r == (if self.oob(pos) {
                None
            } else {
                Some(self.cell_at(pos))
            }),
    {
        if self.is_out_of_bounds(pos) {
            None
        } else {
            Some(self.pos(pos))
        }
    }
}

/// The cell at a position, or `None` when out of bounds
pub open spec fn cell_opt<G: Grid + ?Sized>(g: &G, pos: Pos) -> Option<G::Cell> {
    if g.oob(pos) {
        None
    } else {
        Some(g.cell_at(pos))
    }
}

/// Whether the cell at the position is in bounds and occupied
pub open spec fn occupied_at<G: Grid + ?Sized>(g: &G, pos: Pos) -> bool {
    !g.oob(pos) && g.cell_at(pos).occupied()
}

/// Represents a grid bounded by an axis aligned rectangle
pub trait RectangularBound {
    /// The lower bound of each axis
    spec fn start(&self) -> Pos;

    /// The number of columns
    spec fn width_spec(&self) -> SizeAxis;

    /// The number of rows
    spec fn height_spec(&self) -> SizeAxis;

    /// Returns a position in the grid where each axis is at its lower bound
    fn bound_start(&self) -> (r: Pos)
        ensures
            r == self.start(),
    ;

    /// Returns the width of the boundary
    fn width(&self) -> (r: SizeAxis)
        ensures
            r == self.width_spec(),
    ;

    /// Returns the height of the boundary
    fn height(&self) -> (r: SizeAxis)
        ensures
            r == self.height_spec(),
    ;

    /// Returns a position in the grid where each axis is at its upper bound
    fn bound_end(&self) -> (r: Pos)
        requires
            self.start().x + self.width_spec() <= i16::MAX,
            self.start().y + self.height_spec() <= i16::MAX,
            self.start().x + self.width_spec() - 1 >= i16::MIN,
            self.start().y + self.height_spec() - 1 >= i16::MIN,
        ensures
            r.x == self.start().x + self.width_spec() - 1,
            r.y == self.start().y + self.height_spec() - 1,
    {
        let start = self.bound_start();
        let size = self.size();
        let after = start.add_size(size);
        after.sub_size(Size { x: 1, y: 1 })
    }

    /// Returns the size (size of each axis) of the boundary
    fn size(&self) -> (r: Size)
        ensures
            r == (Size { x: self.width_spec(), y: self.height_spec() }),
    {
        Size { x: self.width(), y: self.height() }
    }

    /// Returns the rectangular axis aligned bounds
    fn bounds(&self) -> (r: (Pos, Pos))
        requires
            self.start().x + self.width_spec() <= i16::MAX,
            self.start().y + self.height_spec() <= i16::MAX,
            self.start().x + self.width_spec() - 1 >= i16::MIN,
            self.start().y + self.height_spec() - 1 >= i16::MIN,
        ensures
            r.0 == self.start(),
            r.1.x == self.start().x + self.width_spec() - 1,
            r.1.y == self.start().y + self.height_spec() - 1,
    {
        (self.bound_start(), self.bound_end())
    }
}

/// The greatest x inside the rectangle
pub open spec fn end_x<R: RectangularBound + ?Sized>(r: &R) -> int {
    r.start().x + r.width_spec() - 1
}

/// The greatest y inside the rectangle
pub open spec fn end_y<R: RectangularBound + ?Sized>(r: &R) -> int {
    r.start().y + r.height_spec() - 1
}

/// The rectangle's corners and the positions just after it fit in a position axis
pub open spec fn rect_fits<R: RectangularBound + ?Sized>(r: &R) -> bool {
    &&& r.start().x + r.width_spec() <= i16::MAX
    &&& r.start().y + r.height_spec() <= i16::MAX
    &&& end_x(r) >= i16::MIN
    &&& end_y(r) >= i16::MIN
}

/// Whether the position lies inside the rectangle
pub open spec fn in_rect<R: RectangularBound + ?Sized>(r: &R, p: Pos) -> bool {
    &&& r.start().x <= p.x <= end_x(r)
    &&& r.start().y <= p.y <= end_y(r)
}

/// The cell at the position relative to the start of the grid's rectangle
pub fn pos_relative<G: Grid + RectangularBound>(g: &G, pos: Pos) -> (c: G::Cell)
    requires
        axis_fits(pos.x + g.start().x),
        axis_fits(pos.y + g.start().y),
        !g.oob(offset(g.start(), pos.x as int, pos.y as int)),
    ensures
        c == g.cell_at(offset(g.start(), pos.x as int, pos.y as int)),
{
    let p = pos.add(g.bound_start());
    assert(p == offset(g.start(), pos.x as int, pos.y as int));
    g.pos(p)
}

/// Returns whether the given position is outside the rectangle
pub fn is_position_outside_rectangle<R>(r: &R, pos: Pos) -> (res: bool) where
    R: RectangularBound,

    requires
        rect_fits(r),
    ensures
        res == !in_rect(r, pos),
{
    let (start, end) = r.bounds();
    pos.x < start.x || pos.y < start.y || pos.x > end.x || pos.y > end.y
}

/// Returns whether the first rectangle is outside the second rectangle
pub fn is_rectangle_outside_rectangle<R1, R2>(r1: R1, r2: R2) -> (res: bool) where
    R1: RectangularBound,
    R2: RectangularBound,

    requires
        rect_fits(&r1),
        rect_fits(&r2),
    ensures
        res == (end_x(&r1) < r2.start().x || r1.start().x > end_x(&r2) || end_y(&r1)
            < r2.start().y || r1.start().y > end_y(&r2)),
        r1.width_spec() > 0 && r1.height_spec() > 0 && r2.width_spec() > 0 && r2.height_spec() > 0
            ==> (res == !exists|p: Pos| #[trigger] in_rect(&r1, p) && in_rect(&r2, p)),
{
    let (start1, end1) = r1.bounds();
    let (start2, end2) = r2.bounds();
    let res = end1.x < start2.x || start1.x > end2.x || end1.y < start2.y || start1.y > end2.y;
    proof {
        if !res && r1.width_spec() > 0 && r1.height_spec() > 0 && r2.width_spec() > 0
            && r2.height_spec() > 0 {
            let p = Pos {
                x: if start1.x > start2.x { start1.x } else { start2.x },
                y: if start1.y > start2.y { start1.y } else { start2.y },
            };
            assert(in_rect(&r1, p) && in_rect(&r2, p));
        }
    }
    res
}

/// Whether some occupied in-bounds cell of `inside`, at its own position, lies out of the
/// bounds of `outside`
pub open spec fn some_occupied_cell_out_of<GIn, GOut>(outside: &GOut, inside: &GIn) -> bool where
    GIn: Grid + RectangularBound,
    GOut: Grid,
 {
    exists|q: Pos|
        #![trigger in_rect(inside, q)]
        in_rect(inside, q) && occupied_at(inside, q) && outside.oob(q)
}

/// Checks whether `inside`'s occupied cells go out of the bounds of `outside`: true when
/// some occupied cell that `inside` yields lies out of the bounds of `outside`, false when
/// all of them are inside
pub fn is_grid_out_of_bounds<GIn, GOut>(outside: &GOut, inside: &GIn) -> (res: bool) where
    GIn: Grid + RectangularBound,
    GOut: Grid,

    requires
        rect_fits(inside),
    ensures
        res == some_occupied_cell_out_of(outside, inside),
{
    let mut iter = cells_iter::Iter::new(inside);
    loop
        invariant
            iter.wf(),
            iter.grid() == inside,
            iter.cursor().x <= end_x(inside) + 1,
            iter.cursor().y <= end_y(inside) + 1,
            rect_fits(inside),
            forall|q: Pos|
                #![trigger in_rect(inside, q)]
                in_rect(inside, q) && occupied_at(inside, q) && cells_iter::lex_lt(q, iter.cursor())
                    ==> !outside.oob(q),
        decreases end_y(inside) + 1 - iter.cursor().y, end_x(inside) + 1 - iter.cursor().x,
    {
        match iter.next() {
            Some((pos, cell)) => {
                if cell.is_occupied() && outside.is_out_of_bounds(pos) {
                    assert(in_rect(inside, pos));
                    return true;
                }
            },
            None => {
                return false;
            },
        }
    }
}

} // verus!
