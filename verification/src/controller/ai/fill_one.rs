//! A computer player that weighs its world by the heights of the occupied cells and of the
//! cells they cover

use vstd::prelude::*;

use crate::data::cell::Cell;
use crate::data::grid::iter::PositionedCellIter;
use crate::data::grid::{imprint_bool, translate};
use crate::data::grid::{in_rect, rect_fits, Grid, Pos, RectangularBound, SizeAxis};
use crate::data::shapes::tetrimino::{lemma_some_cell, shape_cell, some_cell, RotatedShape, Shape};
use crate::data::world::{rows_view, shape_cell_pos, World};
use crate::game::state::{fastfallen_pos, fastfallen_shape_pos};
use super::bruteforce::{self, origin_grid, row_weight, rows_weight, Target};

verus! {

/// A row's weight is never negative
proof fn lemma_row_weight_nonnegative<C: Cell>(rows: Seq<Seq<C>>, y: int, n: int)
    requires
        0 <= y < rows.len(),
    ensures
        row_weight(rows, y, n) >= 0,
    decreases n,
{
    if n > 0 {
        lemma_row_weight_nonnegative(rows, y, n - 1);
    }
}

/// The weight of rows is never negative: the map optimality (lower is better) and the world
/// optimality (greater is better) are opposites, with the best possible world weighing zero
pub proof fn law_weight_nonnegative<C: Cell>(rows: Seq<Seq<C>>, n: int, w: int)
    requires
        n <= rows.len(),
    ensures
        rows_weight(rows, n, w) >= 0,
    decreases n,
{
    if n > 0 {
        law_weight_nonnegative(rows, n - 1, w);
        lemma_row_weight_nonnegative(rows, n - 1, w);
    }
}

/// The weight of the map's cells, row by row; lower is better
pub fn map_optimality<M: Grid + RectangularBound>(map: &M) -> (o: u32)
    requires
        origin_grid(map),
        map.width_spec() > 0,
    ensures
        o == rows_weight(rows_view(map), map.height_spec() as int, map.width_spec() as int),
{
    let ghost rows = rows_view(map);
    let ghost w = map.width_spec() as int;
    let h = map.height();
    let mut o: u32 = 0;
    let mut it = PositionedCellIter::new(map);
    proof {
        assert forall|p: Pos| #![trigger in_rect(map, p)] in_rect(map, p) implies !map.oob(p) by {
            assert(map.oob(p) <==> !in_rect(map, p));
        }
    }
    loop
        invariant
            origin_grid(map),
            rows == rows_view(map),
            h == map.height_spec(),
            w == map.width_spec(),
            w > 0,
            it.map() == map,
            it.wf(),
            o == rows_weight(rows, it.cursor().y as int, w) + row_weight(
                rows,
                it.cursor().y as int,
                it.cursor().x as int,
            ),
            o <= it.cursor().y * 1300500 + it.cursor().x * 5100,
        ensures
            o == rows_weight(rows, h as int, w),
        decreases (h - it.cursor().y) * 256 + 255 - it.cursor().x,
    {
        let ghost c = it.cursor();
        let ghost o0 = o;
        match it.next() {
            None => {
                break;
            },
            Some((pos, cell)) => {
                proof {
                    if c.x == w {
                        assert(rows_weight(rows, c.y + 1, w) == rows_weight(rows, c.y as int, w)
                            + row_weight(rows, c.y as int, w));
                        assert(row_weight(rows, c.y + 1, 0) == 0);
                    }
                    assert(o0 == rows_weight(rows, pos.y as int, w) + row_weight(
                        rows,
                        pos.y as int,
                        pos.x as int,
                    ));
                    assert(cell == rows[pos.y as int][pos.x as int]);
                    assert(row_weight(rows, pos.y as int, pos.x + 1) == row_weight(
                        rows,
                        pos.y as int,
                        pos.x as int,
                    ) + bruteforce::cell_weight(rows, pos.x as int, pos.y as int));
                }
                let weight: u32 = (h - pos.y) as u32;
                if cell.is_occupied() {
                    o = o + weight * 3;
                } else {
                    let above = Pos { x: pos.x as i16, y: pos.y as i16 - 1 };
                    proof {
                        if pos.y > 0 {
                            assert(in_rect(map, above));
                        }
                    }
                    match map.position(above) {
                        Some(above_cell) => {
                            if above_cell.is_occupied() {
                                o = o + weight * 20;
                            }
                        },
                        None => {},
                    }
                }
            },
        }
    }
    o
}

/// Whether every occupied cell of the shape placed at `pos` lies in the world's bounds
pub open spec fn shape_inside<G: Grid>(world: &G, shape: RotatedShape, pos: Pos) -> bool {
    forall|cx: int, cy: int|
        #![trigger shape_cell(shape, cx, cy)]
        0 <= cx < shape.kind().size_spec().x && 0 <= cy < shape.kind().size_spec().y
            && shape_cell(shape, cx, cy) ==> !world.oob(shape_cell_pos(pos, cx, cy))
}

/// Whether every occupied cell of the shape placed at `pos` lies in the world's bounds
pub fn is_shape_inside<G: Grid>(world: &G, shape: &RotatedShape, pos: Pos) -> (r: bool)
    requires
        pos.x <= i16::MAX - 4,
        pos.y <= i16::MAX - 4,
    ensures
        r == shape_inside(world, *shape, pos),
{
    let size = shape.dimensions();
    let mut y: SizeAxis = 0;
    while y < size.y
        invariant
            size == shape.kind().size_spec(),
            pos.x <= i16::MAX - 4,
            pos.y <= i16::MAX - 4,
            y <= size.y,
            forall|cx: int, cy: int|
                #![trigger shape_cell(*shape, cx, cy)]
                0 <= cx < size.x && 0 <= cy < y && shape_cell(*shape, cx, cy) ==> !world.oob(
                    shape_cell_pos(pos, cx, cy),
                ),
        decreases size.y - y,
    {
        let mut x: SizeAxis = 0;
        while x < size.x
            invariant
                size == shape.kind().size_spec(),
                pos.x <= i16::MAX - 4,
                pos.y <= i16::MAX - 4,
                y < size.y,
                x <= size.x,
                forall|cx: int, cy: int|
                    #![trigger shape_cell(*shape, cx, cy)]
                    0 <= cx < size.x && 0 <= cy < y && shape_cell(*shape, cx, cy) ==> !world.oob(
                        shape_cell_pos(pos, cx, cy),
                    ),
                forall|cx: int|
                    #![trigger shape_cell(*shape, cx, y as int)]
                    0 <= cx < x && shape_cell(*shape, cx, y as int) ==> !world.oob(
                        shape_cell_pos(pos, cx, y as int),
                    ),
            decreases size.x - x,
        {
            if shape.filled(x, y) {
                proof {
                    shape.kind().lemma_cells_len(shape.turn() as int);
                }
                let p = Pos { x: pos.x + x as i16, y: pos.y + y as i16 };
                if world.is_out_of_bounds(p) {
                    assert(shape_cell(*shape, x as int, y as int));
                    return false;
                }
            }
            x = x + 1;
        }
        y = y + 1;
    }
    true
}

/// The weight of the world with the shape imprinted at `pos`
pub open spec fn placement_weight<W: World>(world: &W, shape: RotatedShape, pos: Pos) -> int {
    rows_weight(
        rows_view(
            &imprint_bool::Grid {
                a: world,
                b: &translate::Grid {
                    grid: &shape,
                    pos: Pos { x: (-pos.x) as i16, y: (-pos.y) as i16 },
                },
            },
        ),
        world.height_spec() as int,
        world.width_spec() as int,
    )
}

/// The placements of the shape, with their weight, when it starts in row `y` in the columns
/// from `lo` up to `hi` (excluded) and falls down: those where all its occupied cells land
/// inside the world
pub open spec fn column_fills<W: World>(world: &W, shape: RotatedShape, y: i16, lo: int, hi: int) -> Seq<
    (Target, int),
>
    decreases hi - lo,
{
    if hi <= lo {
        Seq::empty()
    } else {
        let earlier = column_fills(world, shape, y, lo, hi - 1);
        let pos = fastfallen_pos(world, shape, Pos { x: (hi - 1) as i16, y });
        if shape_inside(world, shape, pos) {
            earlier.push((Target { pos, rotation: shape.turn() }, placement_weight(world, shape, pos)))
        } else {
            earlier
        }
    }
}

/// The placements of the first `k` rotations of the shape, from the initial rotation up, each
/// tried in the columns from one less than its width to the left of the world to the world's
/// last column, starting in the row of `pos`
pub open spec fn fills<W: World>(world: &W, shape: Shape, pos: Pos, k: int) -> Seq<(Target, int)>
    decreases k,
{
    if k <= 0 {
        Seq::empty()
    } else {
        fills(world, shape, pos, k - 1) + column_fills(
            world,
            RotatedShape::with_turn(shape, (k - 1) as u8),
            pos.y,
            1 - shape.size_spec().x,
            world.width_spec() as int,
        )
    }
}

/// The first placement of least weight
pub open spec fn lightest(c: Seq<(Target, int)>) -> Option<(Target, int)>
    decreases c.len(),
{
    if c.len() == 0 {
        None
    } else {
        match lightest(c.drop_last()) {
            None => Some(c.last()),
            Some(b) => {
                if c.last().1 < b.1 {
                    Some(c.last())
                } else {
                    Some(b)
                }
            },
        }
    }
}

/// The first placement of least weight is one of the placements, none of them weighs less,
/// and each one before it weighs more; there is one unless there is no placement
pub proof fn lemma_lightest(c: Seq<(Target, int)>)
    ensures
        lightest(c) is None <==> c.len() == 0,
        lightest(c) matches Some(b) ==> exists|i: int|
            #![trigger c[i]]
            {
                &&& 0 <= i < c.len()
                &&& c[i] == b
                &&& forall|j: int| 0 <= j < c.len() ==> #[trigger] c[j].1 >= b.1
                &&& forall|j: int| 0 <= j < i ==> #[trigger] c[j].1 > b.1
            },
    decreases c.len(),
{
    if c.len() > 0 {
        let rest = c.drop_last();
        lemma_lightest(rest);
        let n = c.len() - 1;
        match lightest(rest) {
            None => {
                assert(c[n] == c.last());
            },
            Some(b) => {
                let i = choose|i: int|
                    #![trigger rest[i]]
                    {
                        &&& 0 <= i < rest.len()
                        &&& rest[i] == b
                        &&& forall|j: int| 0 <= j < rest.len() ==> #[trigger] rest[j].1 >= b.1
                        &&& forall|j: int| 0 <= j < i ==> #[trigger] rest[j].1 > b.1
                    };
                assert(forall|j: int| 0 <= j < n ==> #[trigger] c[j] == rest[j]);
                if c.last().1 < b.1 {
                    assert(c[n] == c.last());
                } else {
                    assert(c[i] == rest[i]);
                }
            },
        }
    }
}

/// Where the computer player heads for when it gets a new shape: the first of the
/// placements of the shape, over its rotations and the world's columns, that leaves the world
/// the least weight; `None` when there is no placement
pub fn lightest_target<W: World>(world: &W, shape: Shape, pos: Pos) -> (r: Option<Target>)
    requires
        i16::MIN < pos.y < world.height_spec(),
    ensures
        r == (match lightest(fills(world, shape, pos, shape.rotation_count_spec() as int)) {
            Some(b) => Some(b.0),
            None => None,
        }),
{
    proof {
        world.lemma_bounds();
    }
    let width = world.width();
    let first = RotatedShape::new(shape);
    let count = first.rotation_count();
    let shape_width = first.width();
    let mut best: Option<(Target, u32)> = None;
    let ghost mut done: Seq<(Target, int)> = Seq::empty();
    let mut rotation: u8 = 0;
    while rotation < count
        invariant
            i16::MIN < pos.y < world.height_spec(),
            width == world.width_spec(),
            world.start() == (Pos { x: 0, y: 0 }),
            world.width_spec() >= 1,
            rect_fits(world),
            forall|p: Pos| #![trigger world.oob(p)] world.oob(p) <==> !in_rect(world, p),
            first.kind() == shape,
            count == shape.rotation_count_spec(),
            shape_width == shape.size_spec().x,
            rotation <= count,
            done == fills(world, shape, pos, rotation as int),
            match lightest(done) {
                None => best is None,
                Some(b) => best matches Some(e) && e.0 == b.0 && e.1 == b.1,
            },
        decreases count - rotation,
    {
        let rotated = first.with_rotation(rotation);
        proof {
            use_type_invariant(&rotated);
            rotated.lemma_inv();
            RotatedShape::lemma_with_turn(shape, rotation);
            assert(rotation % shape.rotation_count_spec() == rotation);
            assert(rotated == RotatedShape::with_turn(shape, rotation));
        }
        let ghost lo = 1 - shape.size_spec().x;
        let mut x: i16 = 1 - shape_width as i16;
        proof {
            assert(fills(world, shape, pos, rotation as int) + column_fills(
                world,
                rotated,
                pos.y,
                lo,
                x as int,
            ) =~= done);
        }
        while x < width as i16
            invariant
                i16::MIN < pos.y < world.height_spec(),
                width == world.width_spec(),
                world.start() == (Pos { x: 0, y: 0 }),
                world.width_spec() >= 1,
                rect_fits(world),
                forall|p: Pos| #![trigger world.oob(p)] world.oob(p) <==> !in_rect(world, p),
                rotated.turn() < rotated.kind().rotation_count_spec(),
                rotated.kind() == shape,
                lo == 1 - shape.size_spec().x,
                lo <= x <= width,
                done == fills(world, shape, pos, rotation as int) + column_fills(
                    world,
                    rotated,
                    pos.y,
                    lo,
                    x as int,
                ),
                match lightest(done) {
                    None => best is None,
                    Some(b) => best matches Some(e) && e.0 == b.0 && e.1 == b.1,
                },
            decreases width - x,
        {
            let ghost before = done;
            let start = pos.with_x(x);
            let p = fastfallen_shape_pos(&rotated, world, start);
            if is_shape_inside(world, &rotated, p) {
                let shifted = translate::Grid { grid: &rotated, pos: p.neg() };
                let test = imprint_bool::Grid { a: world, b: &shifted };
                proof {
                    assert forall|q: Pos| #![trigger test.oob(q)] test.oob(q) <==> !in_rect(&test, q) by {
                        assert(world.oob(q) <==> !in_rect(world, q));
                    }
                }
                let o = map_optimality(&test);
                let target = Target { pos: p, rotation: rotated.rotation() };
                let better = match best {
                    None => true,
                    Some(b) => o < b.1,
                };
                if better {
                    best = Some((target, o));
                }
                proof {
                    done = done.push((target, o as int));
                    assert(done.drop_last() =~= before);
                }
            }
            proof {
                assert(done =~= fills(world, shape, pos, rotation as int) + column_fills(
                    world,
                    rotated,
                    pos.y,
                    lo,
                    x + 1,
                ));
            }
            x = x + 1;
        }
        proof {
            assert(done =~= fills(world, shape, pos, rotation + 1));
        }
        rotation = rotation + 1;
    }
    match best {
        Some(b) => Some(b.0),
        None => None,
    }
}

/// The placements tried in the columns `lo .. hi`: each is the rotated shape fallen from row
/// `y` in its column, inside the world, with its weight; and every column in which the fallen
/// shape lies inside the world gives one of them
proof fn lemma_column_fills<W: World>(world: &W, shape: RotatedShape, y: i16, lo: int, hi: int)
    requires
        i16::MIN <= lo,
        hi <= i16::MAX,
    ensures
        forall|i: int|
            #![trigger column_fills(world, shape, y, lo, hi)[i]]
            0 <= i < column_fills(world, shape, y, lo, hi).len() ==> {
                let c = column_fills(world, shape, y, lo, hi)[i];
                &&& c.0.rotation == shape.turn()
                &&& c.0.pos == fastfallen_pos(world, shape, Pos { x: c.0.pos.x, y })
                &&& shape_inside(world, shape, c.0.pos)
                &&& c.1 == placement_weight(world, shape, c.0.pos)
            },
        forall|x: i16|
            #![trigger fastfallen_pos(world, shape, Pos { x, y })]
            lo <= x < hi && shape_inside(world, shape, fastfallen_pos(world, shape, Pos { x, y }))
                ==> column_fills(world, shape, y, lo, hi).contains(
                (
                    Target { pos: fastfallen_pos(world, shape, Pos { x, y }), rotation: shape.turn() },
                    placement_weight(world, shape, fastfallen_pos(world, shape, Pos { x, y })),
                ),
            ),
    decreases hi - lo,
{
    if hi > lo {
        lemma_column_fills(world, shape, y, lo, hi - 1);
        let earlier = column_fills(world, shape, y, lo, hi - 1);
        let c = column_fills(world, shape, y, lo, hi);
        let p = fastfallen_pos(world, shape, Pos { x: (hi - 1) as i16, y });
        assert forall|i: int| 0 <= i < earlier.len() implies #[trigger] c[i] == earlier[i] by {}
        assert forall|x: i16|
            #![trigger fastfallen_pos(world, shape, Pos { x, y })]
            lo <= x < hi && shape_inside(world, shape, fastfallen_pos(world, shape, Pos { x, y }))
                implies c.contains(
                (
                    Target { pos: fastfallen_pos(world, shape, Pos { x, y }), rotation: shape.turn() },
                    placement_weight(world, shape, fastfallen_pos(world, shape, Pos { x, y })),
                ),
            ) by {
            if x < hi - 1 {
                let e = (
                    Target { pos: fastfallen_pos(world, shape, Pos { x, y }), rotation: shape.turn() },
                    placement_weight(world, shape, fastfallen_pos(world, shape, Pos { x, y })),
                );
                let i = choose|i: int| 0 <= i < earlier.len() && earlier[i] == e;
                assert(c[i] == e);
            } else {
                assert(x == (hi - 1) as i16);
                assert(c[c.len() - 1] == c.last());
            }
        }
    }
}

/// The placements of the first `k` rotations: each is a rotation below `k` fallen from the
/// row of `pos` in its column, inside the world, with its weight; and each rotation below `k`
/// in each column where the fallen shape lies inside the world gives one of them
proof fn lemma_fills<W: World>(world: &W, shape: Shape, pos: Pos, k: int)
    requires
        k <= shape.rotation_count_spec(),
        world.width_spec() <= 255,
    ensures
        forall|i: int|
            #![trigger fills(world, shape, pos, k)[i]]
            0 <= i < fills(world, shape, pos, k).len() ==> {
                let c = fills(world, shape, pos, k)[i];
                let r = RotatedShape::with_turn(shape, c.0.rotation);
                &&& c.0.rotation < k
                &&& c.0.pos == fastfallen_pos(world, r, Pos { x: c.0.pos.x, y: pos.y })
                &&& shape_inside(world, r, c.0.pos)
                &&& c.1 == placement_weight(world, r, c.0.pos)
            },
        forall|t: u8, x: i16|
            #![trigger fastfallen_pos(world, RotatedShape::with_turn(shape, t), Pos { x, y: pos.y })]
            t < k && 1 - shape.size_spec().x <= x < world.width_spec() && shape_inside(
                world,
                RotatedShape::with_turn(shape, t),
                fastfallen_pos(world, RotatedShape::with_turn(shape, t), Pos { x, y: pos.y }),
            ) ==> fills(world, shape, pos, k).contains(
                (
                    Target {
                        pos: fastfallen_pos(
                            world,
                            RotatedShape::with_turn(shape, t),
                            Pos { x, y: pos.y },
                        ),
                        rotation: t,
                    },
                    placement_weight(
                        world,
                        RotatedShape::with_turn(shape, t),
                        fastfallen_pos(world, RotatedShape::with_turn(shape, t), Pos { x, y: pos.y }),
                    ),
                ),
            ),
    decreases k,
{
    if k > 0 {
        lemma_fills(world, shape, pos, k - 1);
        let r = RotatedShape::with_turn(shape, (k - 1) as u8);
        RotatedShape::lemma_with_turn(shape, (k - 1) as u8);
        let lo = 1 - shape.size_spec().x;
        let hi = world.width_spec() as int;
        lemma_column_fills(world, r, pos.y, lo, hi);
        let a = fills(world, shape, pos, k - 1);
        let b = column_fills(world, r, pos.y, lo, hi);
        let c = fills(world, shape, pos, k);
        assert(c == a + b);
        assert forall|i: int| 0 <= i < c.len() implies {
            let e = #[trigger] c[i];
            let rr = RotatedShape::with_turn(shape, e.0.rotation);
            &&& e.0.rotation < k
            &&& e.0.pos == fastfallen_pos(world, rr, Pos { x: e.0.pos.x, y: pos.y })
            &&& shape_inside(world, rr, e.0.pos)
            &&& e.1 == placement_weight(world, rr, e.0.pos)
        } by {
            if i < a.len() {
                assert(c[i] == a[i]);
            } else {
                assert(c[i] == b[i - a.len()]);
                RotatedShape::lemma_with_turn(shape, c[i].0.rotation);
            }
        }
        assert forall|t: u8, x: i16|
            #![trigger fastfallen_pos(world, RotatedShape::with_turn(shape, t), Pos { x, y: pos.y })]
            t < k && lo <= x < hi && shape_inside(
                world,
                RotatedShape::with_turn(shape, t),
                fastfallen_pos(world, RotatedShape::with_turn(shape, t), Pos { x, y: pos.y }),
            ) implies c.contains(
                (
                    Target {
                        pos: fastfallen_pos(
                            world,
                            RotatedShape::with_turn(shape, t),
                            Pos { x, y: pos.y },
                        ),
                        rotation: t,
                    },
                    placement_weight(
                        world,
                        RotatedShape::with_turn(shape, t),
                        fastfallen_pos(world, RotatedShape::with_turn(shape, t), Pos { x, y: pos.y }),
                    ),
                ),
            ) by {
            let rt = RotatedShape::with_turn(shape, t);
            let e = (
                Target { pos: fastfallen_pos(world, rt, Pos { x, y: pos.y }), rotation: t },
                placement_weight(world, rt, fastfallen_pos(world, rt, Pos { x, y: pos.y })),
            );
            if t < k - 1 {
                let i = choose|i: int| 0 <= i < a.len() && a[i] == e;
                assert(c[i] == e);
            } else {
                assert(t == (k - 1) as u8);
                let i = choose|i: int| 0 <= i < b.len() && b[i] == e;
                assert(c[a.len() + i] == e);
            }
        }
    }
}

/// The fill-one computer player chooses the lightest placement: whatever rotation `t` of the
/// shape and whatever column `x` it would fall in from the row of `pos` and land with all its
/// occupied cells inside the world, there is a target, it is such a landing itself (a
/// rotation of the shape fallen in its column), and it leaves the world no heavier
pub proof fn law_lightest_target_is_lightest<W: World>(
    world: &W,
    shape: Shape,
    pos: Pos,
    r: Option<Target>,
    t: u8,
    x: i16,
)
    requires
        r == (match lightest(fills(world, shape, pos, shape.rotation_count_spec() as int)) {
            Some(b) => Some(b.0),
            None => None,
        }),
        t < shape.rotation_count_spec(),
        x <= i16::MAX - 4,
        shape_inside(
            world,
            RotatedShape::with_turn(shape, t),
            fastfallen_pos(world, RotatedShape::with_turn(shape, t), Pos { x, y: pos.y }),
        ),
    ensures
        r matches Some(target) && {
            let rt = RotatedShape::with_turn(shape, target.rotation);
            let rs = RotatedShape::with_turn(shape, t);
            &&& target.rotation < shape.rotation_count_spec()
            &&& target.pos == fastfallen_pos(world, rt, Pos { x: target.pos.x, y: pos.y })
            &&& shape_inside(world, rt, target.pos)
            &&& placement_weight(world, rt, target.pos) <= placement_weight(
                world,
                rs,
                fastfallen_pos(world, rs, Pos { x, y: pos.y }),
            )
        },
{
    world.lemma_bounds();
    let rs = RotatedShape::with_turn(shape, t);
    RotatedShape::lemma_with_turn(shape, t);
    let p = fastfallen_pos(world, rs, Pos { x, y: pos.y });
    lemma_some_cell(rs);
    let (cx, cy) = some_cell(shape);
    assert(shape_cell(rs, cx, cy));
    assert(!world.oob(shape_cell_pos(p, cx, cy)));
    assert(1 - shape.size_spec().x <= x < world.width_spec());
    let n = shape.rotation_count_spec() as int;
    lemma_fills(world, shape, pos, n);
    let c = fills(world, shape, pos, n);
    let e = (Target { pos: p, rotation: t }, placement_weight(world, rs, p));
    assert(c.contains(e));
    let j = choose|j: int| 0 <= j < c.len() && c[j] == e;
    lemma_lightest(c);
    let b = lightest(c)->0;
    let i = choose|i: int|
        #![trigger c[i]]
        {
            &&& 0 <= i < c.len()
            &&& c[i] == b
            &&& forall|j: int| 0 <= j < c.len() ==> #[trigger] c[j].1 >= b.1
            &&& forall|j: int| 0 <= j < i ==> #[trigger] c[j].1 > b.1
        };
    assert(c[j].1 >= b.1);
    assert(c[i] == b);
}

} // verus!
