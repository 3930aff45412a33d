//! A game world where players reside in

pub mod default;
pub mod dynamic;

use core::ops::Range;

use vstd::prelude::*;

use crate::data::cell::Cell as CellTrait;
use crate::data::grid::{cell_opt, in_rect, rect_fits, Grid, Pos, RectangularBound, SizeAxis};
use crate::data::shapes::tetrimino::{lemma_some_cell, shape_cell, some_cell, RotatedShape};

verus! {

/// When checking for intersections, these are the different kinds of intersections that can occur
#[derive(Copy, Clone, PartialEq, Eq, Debug, Structural)]
pub enum CellIntersection {
    /// Intersects with another imprinted cell in the world
    Imprint(Pos),
    /// Intersects with the boundary of the world or the outside non-existent cells
    OutOfBounds(Pos),
    /// No intersection
    NoIntersection,
}

/// The grid's cells inside its rectangle, row by row, relative to the rectangle's start
pub open spec fn rows_view<G: Grid + RectangularBound>(g: &G) -> Seq<Seq<G::Cell>> {
    Seq::new(
        g.height_spec() as nat,
        |y: int|
            Seq::new(
                g.width_spec() as nat,
                |x: int| g.cell_at(Pos { x: (g.start().x + x) as i16, y: (g.start().y + y) as i16 }),
            ),
    )
}

/// Two grids have the same rectangle
pub open spec fn same_frame<G: Grid + RectangularBound>(a: &G, b: &G) -> bool {
    &&& a.start() == b.start()
    &&& a.width_spec() == b.width_spec()
    &&& a.height_spec() == b.height_spec()
}

/// A row of empty cells
pub open spec fn empty_row<C: CellTrait>(width: nat) -> Seq<C> {
    Seq::new(width, |x: int| C::empty_cell())
}

/// Whether every cell of the row is occupied
pub open spec fn row_full<C: CellTrait>(row: Seq<C>) -> bool {
    forall|i: int| 0 <= i < row.len() ==> #[trigger] row[i].occupied()
}

/// The rows that are not full, in their order
pub open spec fn kept_rows<C: CellTrait>(rows: Seq<Seq<C>>) -> Seq<Seq<C>>
    decreases rows.len(),
{
    if rows.len() == 0 {
        rows
    } else {
        (if row_full(rows[0]) {
            Seq::empty()
        } else {
            seq![rows[0]]
        }) + kept_rows(rows.drop_first())
    }
}

/// Keeping rows never gives more rows
pub proof fn lemma_kept_rows_len<C: CellTrait>(rows: Seq<Seq<C>>)
    ensures
        kept_rows(rows).len() <= rows.len(),
    decreases rows.len(),
{
    if rows.len() > 0 {
        lemma_kept_rows_len(rows.drop_first());
    }
}

/// Extending the rows `j .. b` by the row above
pub proof fn lemma_kept_rows_step<C: CellTrait>(rows: Seq<Seq<C>>, j: int, b: int)
    requires
        0 < j <= b <= rows.len(),
    ensures
        kept_rows(rows.subrange(j - 1, b)) == (if row_full(rows[j - 1]) {
            Seq::empty()
        } else {
            seq![rows[j - 1]]
        }) + kept_rows(rows.subrange(j, b)),
{
    let s = rows.subrange(j - 1, b);
    assert(s.drop_first() =~= rows.subrange(j, b));
    assert(s[0] == rows[j - 1]);
}

/// The number of full rows among the rows `a .. b`
pub open spec fn full_rows_count<C: CellTrait>(rows: Seq<Seq<C>>, a: int, b: int) -> int {
    (b - a) - kept_rows(rows.subrange(a, b)).len()
}

/// The rows after removing the full rows among the rows `a .. b`: the rows above a removed
/// row move down and as many empty rows come in at the top
pub open spec fn cleared_rows<C: CellTrait>(rows: Seq<Seq<C>>, a: int, b: int, width: nat) -> Seq<
    Seq<C>,
> {
    Seq::new(full_rows_count(rows, a, b) as nat, |i: int| empty_row::<C>(width)) + rows.subrange(
        0,
        a,
    ) + kept_rows(rows.subrange(a, b)) + rows.subrange(b, rows.len() as int)
}

/// A shape may be placed at the position: its cells' positions fit in a position axis
pub open spec fn shape_pos_fits(pos: Pos) -> bool {
    pos.x <= i16::MAX - 4 && pos.y <= i16::MAX - 4
}

/// The world position of the shape's cell `(x, y)` when the shape is at `pos`
pub open spec fn shape_cell_pos(pos: Pos, x: int, y: int) -> Pos {
    Pos { x: (pos.x + x) as i16, y: (pos.y + y) as i16 }
}

/// The first intersection, in row-major order from the shape's cell `(x, y)` on, of the
/// shape's occupied cells placed at `pos` with the world's occupied cells or its bounds
pub open spec fn intersection_from<G: Grid>(
    world: &G,
    shape: RotatedShape,
    pos: Pos,
    y: int,
    x: int,
) -> CellIntersection
    decreases shape.kind().size_spec().y - y, shape.kind().size_spec().x - x,
{
    let w = shape.kind().size_spec().x as int;
    let h = shape.kind().size_spec().y as int;
    if y < 0 || y >= h || x < 0 {
        CellIntersection::NoIntersection
    } else if x >= w {
        intersection_from(world, shape, pos, y + 1, 0)
    } else if shape_cell(shape, x, y) && world.oob(shape_cell_pos(pos, x, y)) {
        CellIntersection::OutOfBounds(shape_cell_pos(pos, x, y))
    } else if shape_cell(shape, x, y) && world.cell_at(shape_cell_pos(pos, x, y)).occupied() {
        CellIntersection::Imprint(shape_cell_pos(pos, x, y))
    } else {
        intersection_from(world, shape, pos, y, x + 1)
    }
}

/// The first intersection of the shape's occupied cells placed at `pos` with the world
pub open spec fn intersection<G: Grid>(world: &G, shape: RotatedShape, pos: Pos) -> CellIntersection {
    intersection_from(world, shape, pos, 0, 0)
}

/// Whether the shape's occupied cells, placed at `pos`, all land inside the world on
/// unoccupied cells, looking at the shape's cells from `(x, y)` on in row-major order
pub open spec fn fits_from<G: Grid>(world: &G, shape: RotatedShape, pos: Pos, y: int, x: int) -> bool {
    forall|cx: int, cy: int|
        #![trigger shape_cell(shape, cx, cy)]
        0 <= cx < shape.kind().size_spec().x && 0 <= cy < shape.kind().size_spec().y && (cy > y
            || (cy == y && cx >= x)) && shape_cell(shape, cx, cy) ==> !world.oob(
            shape_cell_pos(pos, cx, cy),
        ) && !world.cell_at(shape_cell_pos(pos, cx, cy)).occupied()
}

/// Whether the shape's occupied cells, placed at `pos`, all land inside the world on
/// unoccupied cells
pub open spec fn fits_at<G: Grid>(world: &G, shape: RotatedShape, pos: Pos) -> bool {
    fits_from(world, shape, pos, 0, 0)
}

/// There is no intersection exactly when the shape fits
pub proof fn lemma_intersection_fits<G: Grid>(world: &G, shape: RotatedShape, pos: Pos, y: int, x: int)
    requires
        0 <= y,
        0 <= x,
    ensures
        (intersection_from(world, shape, pos, y, x) == CellIntersection::NoIntersection)
            <==> fits_from(world, shape, pos, y, x),
    decreases shape.kind().size_spec().y - y, shape.kind().size_spec().x - x,
{
    let w = shape.kind().size_spec().x as int;
    let h = shape.kind().size_spec().y as int;
    if y >= h {
    } else if x >= w {
        lemma_intersection_fits(world, shape, pos, y + 1, 0);
    } else {
        lemma_intersection_fits(world, shape, pos, y, x + 1);
        if !fits_from(world, shape, pos, y, x) {
            let (cx, cy) = choose|cx: int, cy: int|
                #![trigger shape_cell(shape, cx, cy)]
                !(0 <= cx < w && 0 <= cy < h && (cy > y || (cy == y && cx >= x)) && shape_cell(
                    shape,
                    cx,
                    cy,
                ) ==> !world.oob(shape_cell_pos(pos, cx, cy)) && !world.cell_at(
                    shape_cell_pos(pos, cx, cy),
                ).occupied());
            if cy == y && cx == x {
            } else {
                assert(!fits_from(world, shape, pos, y, x + 1));
            }
        }
    }
}

/// When every occupied cell of the shape placed at `pos` lies in bounds, the first
/// intersection is not with the bounds
pub proof fn lemma_intersection_in_bounds<G: Grid>(world: &G, shape: RotatedShape, pos: Pos, y: int, x: int)
    requires
        0 <= y,
        0 <= x,
        forall|cx: int, cy: int|
            #![trigger shape_cell(shape, cx, cy)]
            0 <= cx < shape.kind().size_spec().x && 0 <= cy < shape.kind().size_spec().y
                && shape_cell(shape, cx, cy) ==> !world.oob(shape_cell_pos(pos, cx, cy)),
    ensures
        !(intersection_from(world, shape, pos, y, x) is OutOfBounds),
    decreases shape.kind().size_spec().y - y, shape.kind().size_spec().x - x,
{
    let w = shape.kind().size_spec().x as int;
    let h = shape.kind().size_spec().y as int;
    if y >= h {
    } else if x >= w {
        lemma_intersection_in_bounds(world, shape, pos, y + 1, 0);
    } else {
        lemma_intersection_in_bounds(world, shape, pos, y, x + 1);
    }
}

/// A world's cell at a position inside it is the cell at that row and column of its rows
pub proof fn lemma_rows_view_cell<W: World>(world: &W, p: Pos)
    requires
        in_rect(world, p),
    ensures
        !world.oob(p),
        rows_view(world)[p.y as int][p.x as int] == world.cell_at(p),
{
    world.lemma_bounds();
}

/// Read after write: once a cell is set at a position inside the world, the position holds
/// that cell, and every other position holds what it held before
pub proof fn law_read_after_write<W: World>(
    before: &W,
    after: &W,
    pos: Pos,
    state: W::Cell,
    other: Pos,
)
    requires
        !before.oob(pos),
        same_frame(after, before),
        rows_view(after) == rows_view(before).update(
            pos.y as int,
            rows_view(before)[pos.y as int].update(pos.x as int, state),
        ),
    ensures
        cell_opt(after, pos) == Some(state),
        other != pos ==> cell_opt(after, other) == cell_opt(before, other),
{
    before.lemma_bounds();
    after.lemma_bounds();
    lemma_rows_view_cell(after, pos);
    if other != pos && in_rect(before, other) {
        lemma_rows_view_cell(after, other);
        lemma_rows_view_cell(before, other);
        assert(rows_view(after)[other.y as int][other.x as int] == rows_view(
            before,
        )[other.y as int][other.x as int]);
    }
}

/// A shape imprinted with an occupied cell where it fitted collides there afterwards, with
/// an imprinted cell
pub proof fn law_imprinted_shape_collides<W: World>(
    before: &W,
    after: &W,
    shape: RotatedShape,
    pos: Pos,
    cell: W::Cell,
)
    requires
        shape.turn() < shape.kind().rotation_count_spec(),
        shape_pos_fits(pos),
        cell.occupied(),
        fits_at(before, shape, pos),
        same_frame(after, before),
        rows_view(after) == imprinted_rows(rows_view(before), shape, pos, cell),
    ensures
        intersection(after, shape, pos) is Imprint,
{
    before.lemma_bounds();
    after.lemma_bounds();
    lemma_some_cell(shape);
    let (cx, cy) = some_cell(shape.kind());
    let p = shape_cell_pos(pos, cx, cy);
    assert(shape_cell(shape, cx, cy));
    assert(!before.oob(p));
    lemma_rows_view_cell(after, p);
    assert(covers(shape, pos, p.x as int, p.y as int));
    assert(after.cell_at(p).occupied());
    lemma_intersection_fits(after, shape, pos, 0, 0);
    assert forall|x: int, y: int|
        #![trigger shape_cell(shape, x, y)]
        0 <= x < shape.kind().size_spec().x && 0 <= y < shape.kind().size_spec().y && shape_cell(
            shape,
            x,
            y,
        ) implies !after.oob(shape_cell_pos(pos, x, y)) by {
        assert(!before.oob(shape_cell_pos(pos, x, y)));
    }
    lemma_intersection_in_bounds(after, shape, pos, 0, 0);
}

/// Whether the shape placed at `pos` covers the position `(x, y)` with an occupied cell
pub open spec fn covers(shape: RotatedShape, pos: Pos, x: int, y: int) -> bool {
    let sx = x - pos.x;
    let sy = y - pos.y;
    &&& 0 <= sx < shape.kind().size_spec().x
    &&& 0 <= sy < shape.kind().size_spec().y
    &&& shape_cell(shape, sx, sy)
}

/// The rows after imprinting the shape at `pos` with the given cell
pub open spec fn imprinted_rows<C>(rows: Seq<Seq<C>>, shape: RotatedShape, pos: Pos, cell: C) -> Seq<
    Seq<C>,
> {
    Seq::new(
        rows.len(),
        |y: int|
            Seq::new(
                rows[y].len(),
                |x: int|
                    if covers(shape, pos, x, y) {
                        cell
                    } else {
                        rows[y][x]
                    },
            ),
    )
}

/// The rows after imprinting only those occupied cells of the shape that come before the
/// shape's cell `(cx, cy)` in row-major order
pub open spec fn imprinted_rows_before<C>(
    rows: Seq<Seq<C>>,
    shape: RotatedShape,
    pos: Pos,
    cell: C,
    cy: int,
    cx: int,
) -> Seq<Seq<C>> {
    Seq::new(
        rows.len(),
        |y: int|
            Seq::new(
                rows[y].len(),
                |x: int|
                    if covers(shape, pos, x, y) && (y - pos.y < cy || (y - pos.y == cy && x - pos.x
                        < cx)) {
                        cell
                    } else {
                        rows[y][x]
                    },
            ),
    )
}

/// Common trait for a World grid used in a game.
/// A world is always rectangular and all cells within the rectangular boundaries are valid
pub trait World: Grid + RectangularBound + Sized {
    /// A world starts at the origin, and a position is out of bounds exactly when it lies
    /// outside of its rectangle
    proof fn lemma_bounds(&self)
        ensures
            self.start() == (Pos { x: 0, y: 0 }),
            self.width_spec() >= 1,
            rect_fits(self),
            forall|p: Pos| #![trigger self.oob(p)] self.oob(p) <==> !in_rect(self, p),
    ;

    /// Sets the cell at the given position, which must be inside the world
    fn set_pos(&mut self, x: usize, y: usize, state: Self::Cell)
        requires
            x < old(self).width_spec(),
            y < old(self).height_spec(),
        ensures
            same_frame(final(self), old(self)),
            rows_view(final(self)) == rows_view(old(self)).update(
                y as int,
                rows_view(old(self))[y as int].update(x as int, state),
            ),
    ;

    /// Sets the cell at the given position.
    /// Returns Err when out of bounds, leaving the world as it is.
    fn set_position(&mut self, pos: Pos, state: Self::Cell) -> (r: Result<(), ()>)
        ensures
            r is Ok <==> !old(self).oob(pos),
            r is Ok ==> same_frame(final(self), old(self)),
            r is Ok ==> rows_view(final(self)) == rows_view(old(self)).update(
                pos.y as int,
                rows_view(old(self))[pos.y as int].update(pos.x as int, state),
            ),
            r is Err ==> *final(self) == *old(self),
    {
        proof {
            self.lemma_bounds();
        }
        if self.is_out_of_bounds(pos) {
            Err(())
        } else {
            self.set_pos(pos.x as usize, pos.y as usize, state);
            Ok(())
        }
    }

    /// Clears the world: every cell becomes the empty cell
    fn clear(&mut self)
        ensures
            same_frame(final(self), old(self)),
            rows_view(final(self)) == Seq::new(
                old(self).height_spec() as nat,
                |y: int| empty_row::<Self::Cell>(old(self).width_spec() as nat),
            ),
    {
        let height = self.height();
        let width = self.width();
        let ghost h = height as nat;
        let ghost w = width as nat;
        let ghost start = self.start();
        let mut y: u8 = 0;
        while y < height
            invariant
                height == self.height_spec(),
                width == self.width_spec(),
                self.start() == start,
                y <= height,
                rows_view(self).len() == h,
                forall|j: int| #![trigger rows_view(self)[j]] 0 <= j < y ==> rows_view(self)[j] == empty_row::<Self::Cell>(w),
                forall|j: int| #![trigger rows_view(self)[j]] 0 <= j < h ==> rows_view(self)[j].len() == w,
            decreases height - y,
        {
            let mut x: u8 = 0;
            while x < width
                invariant
                    height == self.height_spec(),
                    width == self.width_spec(),
                    self.start() == start,
                    y < height,
                    x <= width,
                    rows_view(self).len() == h,
                    forall|j: int| #![trigger rows_view(self)[j]] 0 <= j < y ==> rows_view(self)[j] == empty_row::<Self::Cell>(w),
                    forall|j: int| #![trigger rows_view(self)[j]] 0 <= j < h ==> rows_view(self)[j].len() == w,
                    forall|i: int| 0 <= i < x ==> #[trigger] rows_view(self)[y as int][i] == Self::Cell::empty_cell(),
                decreases width - x,
            {
                let e = Self::Cell::empty();
                self.set_pos(x as usize, y as usize, e);
                x = x + 1;
            }
            assert(rows_view(self)[y as int] =~= empty_row::<Self::Cell>(w));
            y = y + 1;
        }
        assert(rows_view(self) =~= Seq::new(h, |j: int| empty_row::<Self::Cell>(w)));
    }

    /// Imprints the given shape at the given position on the world: every occupied cell of
    /// the shape that lands inside the world becomes `cell`; those outside are skipped
    fn imprint_shape(&mut self, shape: &RotatedShape, pos: Pos, cell: Self::Cell)
        requires
            shape_pos_fits(pos),
        ensures
            same_frame(final(self), old(self)),
            rows_view(final(self)) == imprinted_rows(rows_view(old(self)), *shape, pos, cell),
    {
        proof {
            self.lemma_bounds();
        }
        let dims = shape.dimensions();
        let width = dims.x;
        let height = dims.y;
        let ghost rows0 = rows_view(self);
        let ghost w = self.width_spec();
        let ghost h = self.height_spec();
        proof {
            assert(rows0 =~~= imprinted_rows_before(rows0, *shape, pos, cell, 0, 0));
        }
        let mut y: u8 = 0;
        while y < height
            invariant
                width == shape.kind().size_spec().x,
                height == shape.kind().size_spec().y,
                shape_pos_fits(pos),
                y <= height,
                same_frame(self, old(self)),
                rows0 == rows_view(old(self)),
                w == old(self).width_spec(),
                h == old(self).height_spec(),
                self.start() == (Pos { x: 0, y: 0 }),
                forall|p: Pos| #![trigger self.oob(p)] self.oob(p) <==> !in_rect(self, p),
                rows_view(self) == imprinted_rows_before(rows0, *shape, pos, cell, y as int, 0),
            decreases height - y,
        {
            let mut x: u8 = 0;
            while x < width
                invariant
                    width == shape.kind().size_spec().x,
                    height == shape.kind().size_spec().y,
                    shape_pos_fits(pos),
                    y < height,
                    x <= width,
                    same_frame(self, old(self)),
                    rows0 == rows_view(old(self)),
                    w == old(self).width_spec(),
                    h == old(self).height_spec(),
                    self.start() == (Pos { x: 0, y: 0 }),
                    forall|p: Pos| #![trigger self.oob(p)] self.oob(p) <==> !in_rect(self, p),
                    rows_view(self) == imprinted_rows_before(
                        rows0,
                        *shape,
                        pos,
                        cell,
                        y as int,
                        x as int,
                    ),
                decreases width - x,
            {
                let cell_pos = Pos { x: x as i16, y: y as i16 };
                let target = Pos { x: pos.x + cell_pos.x, y: pos.y + cell_pos.y };
                let ghost before = rows_view(self);
                if shape.filled(x, y) {
                    let _ = self.set_position(target, cell);
                    proof {
                        self.lemma_bounds();
                    }
                }
                proof {
                    assert(rows_view(self) =~~= imprinted_rows_before(
                        rows0,
                        *shape,
                        pos,
                        cell,
                        y as int,
                        x + 1,
                    ));
                }
                x = x + 1;
            }
            proof {
                assert(imprinted_rows_before(rows0, *shape, pos, cell, y as int, width as int)
                    =~~= imprinted_rows_before(rows0, *shape, pos, cell, y + 1, 0));
            }
            y = y + 1;
        }
        proof {
            assert(imprinted_rows_before(rows0, *shape, pos, cell, height as int, 0)
                =~~= imprinted_rows(rows0, *shape, pos, cell));
        }
    }

    /// Collision check: the first intersection of the given shape at the given position
    /// with a cell imprinted on the world or with the world's boundary
    fn shape_intersects(&self, shape: &RotatedShape, pos: Pos) -> (r: CellIntersection)
        requires
            shape_pos_fits(pos),
        ensures
            r == intersection(self, *shape, pos),
    ;

    /// Check and resolve any full rows among the rows `y`, starting to check at the last
    /// one and then upward. Returns the number of full rows that were removed.
    fn handle_full_rows(&mut self, y: Range<SizeAxis>) -> (r: SizeAxis)
        requires
            y.start < y.end,
            y.end <= old(self).height_spec(),
        ensures
            same_frame(final(self), old(self)),
            rows_view(final(self)) == cleared_rows(
                rows_view(old(self)),
                y.start as int,
                y.end as int,
                old(self).width_spec() as nat,
            ),
            r == full_rows_count(rows_view(old(self)), y.start as int, y.end as int),
    ;

    /// Clears the row at the given y coordinate
    fn clear_row(&mut self, y: SizeAxis)
        requires
            y < old(self).height_spec(),
        ensures
            same_frame(final(self), old(self)),
            rows_view(final(self)) == rows_view(old(self)).update(
                y as int,
                empty_row::<Self::Cell>(old(self).width_spec() as nat),
            ),
    ;

    /// Copies a row and its cells to another row, overwriting the existing data of the other row
    fn copy_row(&mut self, y_from: SizeAxis, y_to: SizeAxis)
        requires
            y_from != y_to,
            y_from < old(self).height_spec(),
            y_to < old(self).height_spec(),
        ensures
            same_frame(final(self), old(self)),
            rows_view(final(self)) == rows_view(old(self)).update(
                y_to as int,
                rows_view(old(self))[y_from as int],
            ),
    ;

    /// Moves a row and its cells to another row, overwriting the existing data of the other
    /// row and clearing the moved row
    fn move_row(&mut self, y_from: SizeAxis, y_to: SizeAxis)
        requires
            y_from != y_to,
            y_from < old(self).height_spec(),
            y_to < old(self).height_spec(),
        ensures
            same_frame(final(self), old(self)),
            rows_view(final(self)) == rows_view(old(self)).update(
                y_to as int,
                rows_view(old(self))[y_from as int],
            ).update(y_from as int, empty_row::<Self::Cell>(old(self).width_spec() as nat)),
    {
        self.copy_row(y_from, y_to);
        self.clear_row(y_from);
    }
}

/// Default collision check for worlds: goes through the shape's cells row by row and returns
/// the first occupied one that is out of the world's bounds or on an occupied world cell
pub fn shape_intersects<W>(world: &W, shape: &RotatedShape, pos: Pos) -> (r: CellIntersection) where
    W: Grid,

    requires
        shape_pos_fits(pos),
    ensures
        r == intersection(world, *shape, pos),
{
    let width = shape.width();
    let height = shape.height();
    let mut y: u8 = 0;
    while y < height
        invariant
            width == shape.kind().size_spec().x,
            height == shape.kind().size_spec().y,
            shape_pos_fits(pos),
            y <= height,
            intersection(world, *shape, pos) == intersection_from(world, *shape, pos, y as int, 0),
        decreases height - y,
    {
        let mut x: u8 = 0;
        while x < width
            invariant
                width == shape.kind().size_spec().x,
                height == shape.kind().size_spec().y,
                shape_pos_fits(pos),
                y < height,
                x <= width,
                intersection(world, *shape, pos) == intersection_from(
                    world,
                    *shape,
                    pos,
                    y as int,
                    x as int,
                ),
            decreases width - x,
        {
            let cell_pos = Pos { x: x as i16, y: y as i16 };
            if shape.pos(cell_pos) {
                let p = Pos { x: cell_pos.x + pos.x, y: cell_pos.y + pos.y };
                match world.position(p) {
                    None => {
                        return CellIntersection::OutOfBounds(p);
                    },
                    Some(world_cell) => {
                        if world_cell.is_occupied() {
                            return CellIntersection::Imprint(p);
                        }
                    },
                }
            }
            x = x + 1;
        }
        y = y + 1;
    }
    CellIntersection::NoIntersection
}

} // verus!
