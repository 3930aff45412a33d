//! A computer player that tries every placement of its shape and heads for the best one

use vstd::prelude::*;

use crate::data::cell::Cell;
use crate::data::grid::{imprint_bool, translate};
use crate::data::grid::{in_rect, rect_fits, Grid, Pos, RectangularBound, SizeAxis};
use crate::data::shapes::tetrimino::{
    column_filled, first_filled_column, last_filled_column, lemma_some_cell, real_bounds, shape_cell,
    some_cell, RotatedShape, Shape,
};
use crate::data::world::{row_full, rows_view, World};
use crate::game::data::Input;
use crate::game::state::{fastfallen_pos, fastfallen_shape_pos};

verus! {

/// A grid whose rectangle starts at the origin and fits in the position axes, and whose
/// positions are in bounds exactly inside the rectangle
pub open spec fn origin_grid<G: Grid + RectangularBound>(g: &G) -> bool {
    &&& g.start() == (Pos { x: 0, y: 0 })
    &&& rect_fits(g)
    &&& forall|p: Pos| #![trigger g.oob(p)] g.oob(p) <==> !in_rect(g, p)
}

/// Whether the cell in column `x` of row `y` is occupied
pub open spec fn occ<C: Cell>(rows: Seq<Seq<C>>, x: int, y: int) -> bool {
    rows[y][x].occupied()
}

/// The number of full rows among the first `n` rows
pub open spec fn full_row_count<C: Cell>(rows: Seq<Seq<C>>, n: int) -> int
    decreases n,
{
    if n <= 0 {
        0
    } else {
        full_row_count(rows, n - 1) + if row_full(rows[n - 1]) {
            1int
        } else {
            0int
        }
    }
}

/// The first row from `y` down whose cell in column `x` is occupied (the number of rows when
/// there is none)
pub open spec fn column_top<C: Cell>(rows: Seq<Seq<C>>, x: int, y: int) -> int
    decreases rows.len() - y,
{
    if y >= rows.len() {
        rows.len() as int
    } else if occ(rows, x, y) {
        y
    } else {
        column_top(rows, x, y + 1)
    }
}

/// The height of column `x`: the number of rows from its first occupied cell to the bottom
pub open spec fn column_height<C: Cell>(rows: Seq<Seq<C>>, x: int) -> int {
    rows.len() - column_top(rows, x, 0)
}

/// The number of empty cells in column `x` from row `y` down
pub open spec fn column_holes<C: Cell>(rows: Seq<Seq<C>>, x: int, y: int) -> int
    decreases rows.len() - y,
{
    if y >= rows.len() {
        0
    } else {
        column_holes(rows, x, y + 1) + if occ(rows, x, y) {
            0int
        } else {
            1int
        }
    }
}

/// Each empty cell below the first occupied cell of column `x` costs the column's height
pub open spec fn column_penalty<C: Cell>(rows: Seq<Seq<C>>, x: int) -> int {
    column_height(rows, x) * column_holes(rows, x, column_top(rows, x, 0) + 1)
}

/// The sum of the heights of the first `n` columns
pub open spec fn heights_sum<C: Cell>(rows: Seq<Seq<C>>, n: int) -> int
    decreases n,
{
    if n <= 0 {
        0
    } else {
        heights_sum(rows, n - 1) + column_height(rows, n - 1)
    }
}

/// The sum of the penalties of the first `n` columns
pub open spec fn penalties_sum<C: Cell>(rows: Seq<Seq<C>>, n: int) -> int
    decreases n,
{
    if n <= 0 {
        0
    } else {
        penalties_sum(rows, n - 1) + column_penalty(rows, n - 1)
    }
}

/// The absolute difference of two integers
pub open spec fn abs_diff(a: int, b: int) -> int {
    if a > b {
        a - b
    } else {
        b - a
    }
}

/// The sum of the height differences of neighbouring columns among the first `n` columns
pub open spec fn bumpiness<C: Cell>(rows: Seq<Seq<C>>, n: int) -> int
    decreases n,
{
    if n <= 1 {
        0
    } else {
        bumpiness(rows, n - 1) + abs_diff(column_height(rows, n - 1), column_height(rows, n - 2))
    }
}

/// The measures of a world that its optimality weighs
#[derive(Copy, Clone, Debug, PartialEq, Eq, Structural)]
pub struct WorldMetrics {
    /// The number of full rows
    pub rows_completed: u32,
    /// The sum of the column heights
    pub columns_height_sum: u32,
    /// For each column, its height times its empty cells below its first occupied one
    pub cells_vertically_blocked_penalty: u32,
    /// The sum of the height differences of neighbouring columns
    pub height_bumpiness: u32,
}

/// The metrics of rows of width `w`
pub open spec fn metrics_of<C: Cell>(m: WorldMetrics, rows: Seq<Seq<C>>, w: int) -> bool {
    &&& m.rows_completed == full_row_count(rows, rows.len() as int)
    &&& m.columns_height_sum == heights_sum(rows, w)
    &&& m.cells_vertically_blocked_penalty == penalties_sum(rows, w)
    &&& m.height_bumpiness == bumpiness(rows, w)
}

/// A column's top lies between `y` and the number of rows; its holes are at most the rows
/// from `y` on
proof fn lemma_column_bounds<C: Cell>(rows: Seq<Seq<C>>, x: int, y: int)
    requires
        0 <= y <= rows.len(),
    ensures
        y <= column_top(rows, x, y) <= rows.len(),
        0 <= column_holes(rows, x, y) <= rows.len() - y,
    decreases rows.len() - y,
{
    if y < rows.len() {
        lemma_column_bounds(rows, x, y + 1);
    }
}

/// Whether the cell in column `x` of row `y` is occupied
fn occupied_cell<G: Grid + RectangularBound>(g: &G, x: SizeAxis, y: SizeAxis) -> (r: bool)
    requires
        origin_grid(g),
        x < g.width_spec(),
        y < g.height_spec(),
    ensures
        r == occ(rows_view(g), x as int, y as int),
{
    let p = Pos { x: x as i16, y: y as i16 };
    assert(in_rect(g, p));
    g.pos(p).is_occupied()
}

/// Whether every cell of row `y` is occupied
fn row_complete<G: Grid + RectangularBound>(g: &G, y: SizeAxis) -> (r: bool)
    requires
        origin_grid(g),
        y < g.height_spec(),
    ensures
        r == row_full(rows_view(g)[y as int]),
{
    let width = g.width();
    let mut x: SizeAxis = 0;
    while x < width
        invariant
            origin_grid(g),
            width == g.width_spec(),
            y < g.height_spec(),
            x <= width,
            forall|i: int| 0 <= i < x ==> #[trigger] rows_view(g)[y as int][i].occupied(),
        decreases width - x,
    {
        if !occupied_cell(g, x, y) {
            return false;
        }
        x = x + 1;
    }
    true
}

/// The first row of column `x` whose cell is occupied (the height when there is none), and
/// the number of empty cells below it
fn column_scan<G: Grid + RectangularBound>(g: &G, x: SizeAxis) -> (r: (SizeAxis, SizeAxis))
    requires
        origin_grid(g),
        x < g.width_spec(),
    ensures
        r.0 == column_top(rows_view(g), x as int, 0),
        r.1 == column_holes(rows_view(g), x as int, r.0 + 1),
{
    let ghost rows = rows_view(g);
    let height = g.height();
    let mut y: SizeAxis = 0;
    while y < height && !occupied_cell(g, x, y)
        invariant
            origin_grid(g),
            rows == rows_view(g),
            height == g.height_spec(),
            x < g.width_spec(),
            y <= height,
            column_top(rows, x as int, 0) == column_top(rows, x as int, y as int),
        decreases height - y,
    {
        y = y + 1;
    }
    let top = y;
    if top == height {
        return (top, 0);
    }
    let mut holes: SizeAxis = 0;
    let mut z: SizeAxis = top + 1;
    proof {
        lemma_column_bounds(rows, x as int, z as int);
    }
    while z < height
        invariant
            origin_grid(g),
            rows == rows_view(g),
            height == g.height_spec(),
            x < g.width_spec(),
            top < z <= height,
            holes <= z - top - 1,
            holes + column_holes(rows, x as int, z as int) == column_holes(
                rows,
                x as int,
                top + 1,
            ),
        decreases height - z,
    {
        if !occupied_cell(g, x, z) {
            holes = holes + 1;
        }
        z = z + 1;
    }
    (top, holes)
}

/// Measures the world: its full rows, the heights of its columns, the empty cells below
/// their tops and how uneven the heights are
pub fn world_metrics<G: Grid + RectangularBound>(world: &G) -> (m: WorldMetrics)
    requires
        origin_grid(world),
    ensures
        metrics_of(m, rows_view(world), world.width_spec() as int),
        m.rows_completed <= 255,
        m.columns_height_sum <= 65025,
        m.cells_vertically_blocked_penalty <= 16581375,
        m.height_bumpiness <= 65025,
{
    let ghost rows = rows_view(world);
    let height = world.height();
    let width = world.width();

    let mut rows_completed: u32 = 0;
    let mut y: SizeAxis = 0;
    while y < height
        invariant
            origin_grid(world),
            rows == rows_view(world),
            height == world.height_spec(),
            y <= height,
            rows_completed == full_row_count(rows, y as int),
            rows_completed <= y,
        decreases height - y,
    {
        if row_complete(world, y) {
            rows_completed = rows_completed + 1;
        }
        y = y + 1;
    }

    let mut columns_height_sum: u32 = 0;
    let mut penalty: u32 = 0;
    let mut bumps: u32 = 0;
    let mut previous_height: SizeAxis = 0;
    let mut x: SizeAxis = 0;
    while x < width
        invariant
            origin_grid(world),
            rows == rows_view(world),
            height == world.height_spec(),
            width == world.width_spec(),
            x <= width,
            columns_height_sum == heights_sum(rows, x as int),
            penalty == penalties_sum(rows, x as int),
            bumps == bumpiness(rows, x as int),
            x > 0 ==> previous_height == column_height(rows, x - 1),
            columns_height_sum <= x * 255,
            penalty <= x * 65025,
            bumps <= x * 255,
        decreases width - x,
    {
        let (top, holes) = column_scan(world, x);
        proof {
            lemma_column_bounds(rows, x as int, 0);
            if top < height {
                lemma_column_bounds(rows, x as int, top + 1);
            }
        }
        let column_height = height - top;
        proof {
            assert((column_height as u32) * (holes as u32) <= 65025) by (nonlinear_arith)
                requires
                    column_height <= 255,
                    holes <= 255,
            ;
        }
        let column_penalty: u32 = (column_height as u32) * (holes as u32);
        columns_height_sum = columns_height_sum + column_height as u32;
        penalty = penalty + column_penalty;
        if x > 0 {
            bumps = bumps + if column_height > previous_height {
                column_height - previous_height
            } else {
                previous_height - column_height
            } as u32;
        }
        previous_height = column_height;
        x = x + 1;
    }

    WorldMetrics {
        rows_completed,
        columns_height_sum,
        cells_vertically_blocked_penalty: penalty,
        height_bumpiness: bumps,
    }
}

/// The bumpiness beyond 8 (none up to 8)
pub open spec fn bumpiness_excess(b: int) -> int {
    if b >= 8 {
        b - 8
    } else {
        0
    }
}

/// The weighted sum of the metrics of rows of width `w`: the square of the completed rows
/// counts for, the column heights, the blocked cells and the bumpiness beyond 8 count against
/// (with the weights 0.25, 0.5, 0.35 and 0.3, all scaled by 20 to whole numbers)
pub open spec fn optimality<C: Cell>(rows: Seq<Seq<C>>, w: int) -> int {
    let completed = full_row_count(rows, rows.len() as int);
    5 * (completed * completed) - 10 * heights_sum(rows, w) - 7 * penalties_sum(rows, w) - 6
        * bumpiness_excess(bumpiness(rows, w))
}

/// The optimality of the world, counted in twentieths so that its weights are whole
/// numbers; greater is better
pub fn world_optimality2<G: Grid + RectangularBound>(world: &G) -> (o: i64)
    requires
        origin_grid(world),
    ensures
        o == optimality(rows_view(world), world.width_spec() as int),
{
    let m = world_metrics(world);
    let completed = m.rows_completed as i64;
    let excess: i64 = match m.height_bumpiness.checked_sub(4 * 2) {
        Some(e) => e as i64,
        None => 0,
    };
    proof {
        assert(completed * completed <= 65025) by (nonlinear_arith)
            requires
                0 <= completed <= 255,
        ;
    }
    5 * (completed * completed) - 10 * (m.columns_height_sum as i64) - 7 * (
    m.cells_vertically_blocked_penalty as i64) - 6 * excess
}

/// What the cell in column `x` of row `y` weighs: three times its height above the bottom
/// when occupied, twenty times that height when it is empty under an occupied cell, and
/// nothing otherwise
pub open spec fn cell_weight<C: Cell>(rows: Seq<Seq<C>>, x: int, y: int) -> int {
    let height = rows.len() - y;
    if occ(rows, x, y) {
        3 * height
    } else if y > 0 && occ(rows, x, y - 1) {
        20 * height
    } else {
        0
    }
}

/// The weight of the first `n` cells of row `y`
pub open spec fn row_weight<C: Cell>(rows: Seq<Seq<C>>, y: int, n: int) -> int
    decreases n,
{
    if n <= 0 {
        0
    } else {
        row_weight(rows, y, n - 1) + cell_weight(rows, n - 1, y)
    }
}

/// The weight of the first `n` rows of width `w`
pub open spec fn rows_weight<C: Cell>(rows: Seq<Seq<C>>, n: int, w: int) -> int
    decreases n,
{
    if n <= 0 {
        0
    } else {
        rows_weight(rows, n - 1, w) + row_weight(rows, n - 1, w)
    }
}

/// The weight of the cells of row `y`: at most 5100 a cell
fn row_weight_of<G: Grid + RectangularBound>(world: &G, y: SizeAxis) -> (r: u32)
    requires
        origin_grid(world),
        y < world.height_spec(),
    ensures
        r == row_weight(rows_view(world), y as int, world.width_spec() as int),
        r <= 1300500,
{
    let ghost rows = rows_view(world);
    let width = world.width();
    let height = world.height();
    let weight: u32 = (height - y) as u32;
    let mut o: u32 = 0;
    let mut x: SizeAxis = 0;
    while x < width
        invariant
            origin_grid(world),
            rows == rows_view(world),
            width == world.width_spec(),
            height == world.height_spec(),
            y < height,
            weight == height - y,
            x <= width,
            o == row_weight(rows, y as int, x as int),
            o <= x * 5100,
        decreases width - x,
    {
        if occupied_cell(world, x, y) {
            o = o + weight * 3;
        } else {
            let above = Pos { x: x as i16, y: y as i16 - 1 };
            proof {
                if y > 0 {
                    assert(in_rect(world, above));
                }
            }
            match world.position(above) {
                Some(cell) => {
                    if cell.is_occupied() {
                        o = o + weight * 20;
                    }
                },
                None => {},
            }
        }
        x = x + 1;
    }
    o
}

/// The opposite of the weight of the world's cells; greater is better
pub fn world_optimality<G: Grid + RectangularBound>(world: &G) -> (o: i64)
    requires
        origin_grid(world),
    ensures
        o == -rows_weight(rows_view(world), world.height_spec() as int, world.width_spec() as int),
{
    let ghost rows = rows_view(world);
    let height = world.height();
    let mut o: u32 = 0;
    let mut y: SizeAxis = 0;
    while y < height
        invariant
            origin_grid(world),
            rows == rows_view(world),
            height == world.height_spec(),
            y <= height,
            o == rows_weight(rows, y as int, world.width_spec() as int),
            o <= y * 1300500,
        decreases height - y,
    {
        o = o + row_weight_of(world, y);
        y = y + 1;
    }
    -(o as i64)
}

/// A placement that the computer player heads for: where its shape lands and in which
/// rotation
#[derive(Copy, Clone, Debug, PartialEq, Eq, Structural)]
pub struct Target {
    pub pos: Pos,
    pub rotation: u8,
}

/// The optimality of the world with the shape imprinted at `pos`
pub open spec fn placement_optimality<W: World>(world: &W, shape: RotatedShape, pos: Pos) -> int {
    optimality(
        rows_view(
            &imprint_bool::Grid {
                a: world,
                b: &translate::Grid {
                    grid: &shape,
                    pos: Pos { x: (-pos.x) as i16, y: (-pos.y) as i16 },
                },
            },
        ),
        world.width_spec() as int,
    )
}

/// The placements of the shape, with their optimality, when it starts in row `y` in the
/// columns from `lo` up to `hi` (excluded) and falls down: those columns whose occupied cells
/// all lie inside the world's width
pub open spec fn column_placements<W: World>(
    world: &W,
    shape: RotatedShape,
    y: i16,
    lo: int,
    hi: int,
) -> Seq<(Target, int)>
    decreases hi - lo,
{
    if hi <= lo {
        Seq::empty()
    } else {
        let earlier = column_placements(world, shape, y, lo, hi - 1);
        let x = hi - 1;
        match real_bounds(shape) {
            Some(b) => {
                if b.0 + x >= 0 && b.1 + x < world.width_spec() {
                    let pos = fastfallen_pos(world, shape, Pos { x: x as i16, y });
                    earlier.push(
                        (Target { pos, rotation: shape.turn() }, placement_optimality(world, shape, pos)),
                    )
                } else {
                    earlier
                }
            },
            None => earlier,
        }
    }
}

/// The placements of the first `k` rotations that the shape yields (from its last rotation
/// down), each tried in the columns from one less than its width to the left of the world to
/// the world's last column, starting in the row of `pos`
pub open spec fn placements<W: World>(world: &W, shape: Shape, pos: Pos, k: int) -> Seq<(Target, int)>
    decreases k,
{
    if k <= 0 {
        Seq::empty()
    } else {
        let rotated = RotatedShape::with_turn(shape, (shape.rotation_count_spec() - k) as u8);
        placements(world, shape, pos, k - 1) + column_placements(
            world,
            rotated,
            pos.y,
            1 - shape.size_spec().x,
            world.width_spec() as int,
        )
    }
}

/// The first placement of greatest optimality
pub open spec fn best_placement(c: Seq<(Target, int)>) -> Option<(Target, int)>
    decreases c.len(),
{
    if c.len() == 0 {
        None
    } else {
        match best_placement(c.drop_last()) {
            None => Some(c.last()),
            Some(b) => {
                if c.last().1 > b.1 {
                    Some(c.last())
                } else {
                    Some(b)
                }
            },
        }
    }
}

/// The first placement of greatest optimality is one of the placements, none of them is more
/// optimal, and each one before it is less optimal; there is one unless there is no placement
pub proof fn lemma_best_placement(c: Seq<(Target, int)>)
    ensures
        best_placement(c) is None <==> c.len() == 0,
        best_placement(c) matches Some(b) ==> exists|i: int|
            #![trigger c[i]]
            {
                &&& 0 <= i < c.len()
                &&& c[i] == b
                &&& forall|j: int| 0 <= j < c.len() ==> #[trigger] c[j].1 <= b.1
                &&& forall|j: int| 0 <= j < i ==> #[trigger] c[j].1 < b.1
            },
    decreases c.len(),
{
    if c.len() > 0 {
        let rest = c.drop_last();
        lemma_best_placement(rest);
        let n = c.len() - 1;
        match best_placement(rest) {
            None => {
                assert(c[n] == c.last());
            },
            Some(b) => {
                let i = choose|i: int|
                    #![trigger rest[i]]
                    {
                        &&& 0 <= i < rest.len()
                        &&& rest[i] == b
                        &&& forall|j: int| 0 <= j < rest.len() ==> #[trigger] rest[j].1 <= b.1
                        &&& forall|j: int| 0 <= j < i ==> #[trigger] rest[j].1 < b.1
                    };
                assert(forall|j: int| 0 <= j < n ==> #[trigger] c[j] == rest[j]);
                if c.last().1 > b.1 {
                    assert(c[n] == c.last());
                } else {
                    assert(c[i] == rest[i]);
                }
            },
        }
    }
}

/// The game events that the computer player reacts to: a player was added, a player got a
/// new shape, or anything else
#[derive(Copy, Clone, Debug, PartialEq, Eq, Structural)]
pub enum EventKind {
    PlayerAdded,
    PlayerChangedShape,
    Other,
}

/// How the computer player reacts to an event
#[derive(Copy, Clone, Debug, PartialEq, Eq, Structural)]
pub struct EventResponse {
    /// It forgets its target, to choose a new one
    pub reset_target: bool,
    /// Its move and rotation timers restart from zero
    pub reset_timers: bool,
}

/// How the computer player controlling `own` reacts to an event about `player`: when its own
/// player was added it forgets its target; when its own player got a new shape it forgets
/// its target and restarts its timers; any other event changes nothing
pub fn event_response(kind: EventKind, player: u8, own: u8) -> (r: EventResponse)
    ensures
        r.reset_target == (player == own && kind != EventKind::Other),
        r.reset_timers == (player == own && kind == EventKind::PlayerChangedShape),
{
    if player != own {
        return EventResponse { reset_target: false, reset_timers: false };
    }
    match kind {
        EventKind::PlayerAdded => EventResponse { reset_target: true, reset_timers: false },
        EventKind::PlayerChangedShape => EventResponse { reset_target: true, reset_timers: true },
        EventKind::Other => EventResponse { reset_target: false, reset_timers: false },
    }
}

/// How soon the controller acts again after an input: after the move delay or after the
/// fall delay
#[derive(Copy, Clone, Debug, PartialEq, Eq, Structural)]
pub enum Pace {
    Move,
    Fall,
}

/// The input that brings the player in column `x`, with rotation `rotation`, closer to the
/// target, and the pace after it: left or right while the column differs, then down once the
/// rotation is the target's; nothing while only the rotation differs
pub fn move_step(x: i16, rotation: u8, target: Target) -> (r: Option<(Input, Pace)>)
    ensures
        r == (if x > target.pos.x {
            Some((Input::MoveLeft, Pace::Move))
        } else if x < target.pos.x {
            Some((Input::MoveRight, Pace::Move))
        } else if rotation == target.rotation {
            Some((Input::SlowFall, Pace::Fall))
        } else {
            None
        }),
{
    if x > target.pos.x {
        Some((Input::MoveLeft, Pace::Move))
    } else if x < target.pos.x {
        Some((Input::MoveRight, Pace::Move))
    } else if rotation == target.rotation {
        Some((Input::SlowFall, Pace::Fall))
    } else {
        None
    }
}

/// The input that turns the player's shape towards the target's rotation: anticlockwise
/// while the rotations differ
pub fn rotate_step(rotation: u8, target: Target) -> (r: Option<Input>)
    ensures
        r == (if rotation != target.rotation {
            Some(Input::RotateAntiClockwise)
        } else {
            None
        }),
{
    if rotation != target.rotation {
        Some(Input::RotateAntiClockwise)
    } else {
        None
    }
}

/// Without occupied cells the shape has no placement
proof fn lemma_no_placements<W: World>(world: &W, shape: RotatedShape, y: i16, lo: int, hi: int)
    requires
        real_bounds(shape) is None,
    ensures
        column_placements(world, shape, y, lo, hi) == Seq::<(Target, int)>::empty(),
    decreases hi - lo,
{
    if hi > lo {
        lemma_no_placements(world, shape, y, lo, hi - 1);
    }
}

/// Where the computer player heads for: the first of the placements of the shape, over its
/// rotations and the world's columns, that leaves the world with the greatest optimality;
/// `None` when there is no placement
pub fn optimal_target<W: World>(world: &W, shape: Shape, pos: Pos) -> (r: Option<Target>)
    requires
        i16::MIN < pos.y < world.height_spec(),
    ensures
        r == (match best_placement(placements(world, shape, pos, shape.rotation_count_spec() as int)) {
            Some(b) => Some(b.0),
            None => None,
        }),
{
    proof {
        world.lemma_bounds();
    }
    let width = world.width();
    let ghost rc = shape.rotation_count_spec() as int;
    let mut best: Option<(Target, i64)> = None;
    let ghost mut done: Seq<(Target, int)> = Seq::empty();
    let mut rotations = shape.rotations();
    loop
        invariant
            i16::MIN < pos.y < world.height_spec(),
            width == world.width_spec(),
            world.start() == (Pos { x: 0, y: 0 }),
            world.width_spec() >= 1,
            rect_fits(world),
            forall|p: Pos| #![trigger world.oob(p)] world.oob(p) <==> !in_rect(world, p),
            rc == shape.rotation_count_spec(),
            rotations.kind() == shape,
            rotations.left() <= rc,
            done == placements(world, shape, pos, rc - rotations.left()),
            match best_placement(done) {
                None => best is None,
                Some(b) => best matches Some(e) && e.0 == b.0 && e.1 == b.1,
            },
        ensures
            done == placements(world, shape, pos, rc),
            match best_placement(done) {
                None => best is None,
                Some(b) => best matches Some(e) && e.0 == b.0 && e.1 == b.1,
            },
        decreases rotations.left(),
    {
        let ghost k = rc - rotations.left();
        match rotations.next() {
            None => {
                break;
            },
            Some(rotated) => {
                proof {
                    use_type_invariant(&rotated);
                    rotated.lemma_inv();
                    RotatedShape::lemma_with_turn(shape, rotated.turn());
                    assert(rotated == RotatedShape::with_turn(shape, (rc - (k + 1)) as u8));
                }
                let ghost lo = 1 - shape.size_spec().x;
                match rotated.real_bound_x() {
                    Some(bounds) => {
                        let mut x: i16 = 1 - rotated.width() as i16;
                        proof {
                            assert(placements(world, shape, pos, k) + column_placements(
                                world,
                                rotated,
                                pos.y,
                                lo,
                                x as int,
                            ) =~= done);
                        }
                        while x < width as i16
                            invariant
                                i16::MIN < pos.y < world.height_spec(),
                                width == world.width_spec(),
                                world.start() == (Pos { x: 0, y: 0 }),
                                rect_fits(world),
                                forall|p: Pos| #![trigger world.oob(p)] world.oob(p) <==> !in_rect(world, p),
                                rotated.turn() < rotated.kind().rotation_count_spec(),
                                rotated.kind() == shape,
                                real_bounds(rotated) == Some((bounds.0 as int, bounds.1 as int)),
                                lo == 1 - shape.size_spec().x,
                                lo <= x <= width,
                                done == placements(world, shape, pos, k) + column_placements(
                                    world,
                                    rotated,
                                    pos.y,
                                    lo,
                                    x as int,
                                ),
                                match best_placement(done) {
                                    None => best is None,
                                    Some(b) => best matches Some(e) && e.0 == b.0 && e.1 == b.1,
                                },
                            decreases width - x,
                        {
                            let ghost before = done;
                            if bounds.0 as i16 + x >= 0 && (bounds.1 as i16) + x < width as i16 {
                                let start = pos.with_x(x);
                                let p = fastfallen_shape_pos(&rotated, world, start);
                                let shifted = translate::Grid { grid: &rotated, pos: p.neg() };
                                let test = imprint_bool::Grid { a: world, b: &shifted };
                                proof {
                                    assert forall|q: Pos| #![trigger test.oob(q)] test.oob(q) <==> !in_rect(&test, q) by {
                                        assert(world.oob(q) <==> !in_rect(world, q));
                                    }
                                }
                                let o = world_optimality2(&test);
                                let target = Target { pos: p, rotation: rotated.rotation() };
                                let better = match best {
                                    None => true,
                                    Some(b) => o > b.1,
                                };
                                if better {
                                    best = Some((target, o));
                                }
                                proof {
                                    done = done.push((target, o as int));
                                    assert(done.drop_last() =~= before);
                                }
                            }
                            proof {
                                assert(column_placements(world, rotated, pos.y, lo, x + 1)
                                    == if bounds.0 + x >= 0 && bounds.1 + x < world.width_spec() {
                                    column_placements(world, rotated, pos.y, lo, x as int).push(
                                        (
                                            Target {
                                                pos: fastfallen_pos(world, rotated, Pos { x, y: pos.y }),
                                                rotation: rotated.turn(),
                                            },
                                            placement_optimality(
                                                world,
                                                rotated,
                                                fastfallen_pos(world, rotated, Pos { x, y: pos.y }),
                                            ),
                                        ),
                                    )
                                } else {
                                    column_placements(world, rotated, pos.y, lo, x as int)
                                });
                                assert(done =~= placements(world, shape, pos, k) + column_placements(
                                    world,
                                    rotated,
                                    pos.y,
                                    lo,
                                    x + 1,
                                ));
                            }
                            x = x + 1;
                        }
                    },
                    None => {
                        proof {
                            lemma_no_placements(world, rotated, pos.y, lo, world.width_spec() as int);
                        }
                    },
                }
                proof {
                    assert(done =~= placements(world, shape, pos, k + 1));
                }
            },
        }
    }
    match best {
        Some(b) => Some(b.0),
        None => None,
    }
}

/// Whether every occupied cell of the shape placed in column `x` lies in one of the world's
/// columns
pub open spec fn cells_in_columns<W: World>(world: &W, s: RotatedShape, x: int) -> bool {
    forall|cx: int, cy: int|
        #![trigger shape_cell(s, cx, cy)]
        0 <= cx < s.kind().size_spec().x && 0 <= cy < s.kind().size_spec().y && shape_cell(
            s,
            cx,
            cy,
        ) ==> 0 <= x + cx < world.width_spec()
}

/// The first filled column from `a` on comes no later than any filled column from `a` on,
/// and is filled itself
proof fn lemma_first_filled(s: RotatedShape, a: int, c: int)
    requires
        0 <= a <= c < s.kind().size_spec().x,
        column_filled(s, c),
    ensures
        a <= first_filled_column(s, a) <= c,
        column_filled(s, first_filled_column(s, a)),
    decreases c - a,
{
    if !column_filled(s, a) {
        lemma_first_filled(s, a + 1, c);
    }
}

/// The last filled column up to `a` comes no earlier than any filled column up to `a`, and
/// is filled itself
proof fn lemma_last_filled(s: RotatedShape, a: int, c: int)
    requires
        0 <= c <= a,
        column_filled(s, c),
    ensures
        c <= last_filled_column(s, a) <= a,
        column_filled(s, last_filled_column(s, a)),
    decreases a - c,
{
    if !column_filled(s, a) {
        lemma_last_filled(s, a - 1, c);
    }
}

/// The occupied columns of a rotation of a shape lie in the world's columns exactly when its
/// first and last occupied columns do
proof fn lemma_bounds_in_columns<W: World>(world: &W, s: RotatedShape, x: int)
    requires
        s.turn() < s.kind().rotation_count_spec(),
    ensures
        real_bounds(s) matches Some(b) && ((b.0 + x >= 0 && b.1 + x < world.width_spec())
            == cells_in_columns(world, s, x)),
        cells_in_columns(world, s, x) ==> 1 - s.kind().size_spec().x <= x < world.width_spec(),
{
    lemma_some_cell(s);
    let (cx0, cy0) = some_cell(s.kind());
    assert(column_filled(s, cx0));
    let n = s.kind().size_spec().x as int;
    lemma_first_filled(s, 0, cx0);
    lemma_last_filled(s, n - 1, cx0);
    let first = first_filled_column(s, 0);
    let last = last_filled_column(s, n - 1);
    assert(real_bounds(s) == Some((first, last)));
    if first + x >= 0 && last + x < world.width_spec() {
        assert forall|cx: int, cy: int|
            #![trigger shape_cell(s, cx, cy)]
            0 <= cx < n && 0 <= cy < s.kind().size_spec().y && shape_cell(s, cx, cy) implies 0
            <= x + cx < world.width_spec() by {
            assert(column_filled(s, cx));
            lemma_first_filled(s, 0, cx);
            lemma_last_filled(s, n - 1, cx);
        }
    }
    if cells_in_columns(world, s, x) {
        let fy = choose|y: int| 0 <= y < s.kind().size_spec().y && #[trigger] shape_cell(s, first, y);
        let ly = choose|y: int| 0 <= y < s.kind().size_spec().y && #[trigger] shape_cell(s, last, y);
        assert(shape_cell(s, cx0, cy0));
        assert(shape_cell(s, first, fy));
        assert(shape_cell(s, last, ly));
    }
}

/// The placements tried in the columns `lo .. hi`: each is the rotated shape fallen from row
/// `y` in its column, with its occupied cells in the world's columns and with its
/// optimality; and every column whose occupied cells lie in the world's columns gives one
proof fn lemma_column_placements<W: World>(world: &W, shape: RotatedShape, y: i16, lo: int, hi: int)
    requires
        shape.turn() < shape.kind().rotation_count_spec(),
        i16::MIN <= lo,
        hi <= i16::MAX,
    ensures
        forall|i: int|
            #![trigger column_placements(world, shape, y, lo, hi)[i]]
            0 <= i < column_placements(world, shape, y, lo, hi).len() ==> {
                let c = column_placements(world, shape, y, lo, hi)[i];
                &&& c.0.rotation == shape.turn()
                &&& c.0.pos == fastfallen_pos(world, shape, Pos { x: c.0.pos.x, y })
                &&& cells_in_columns(world, shape, c.0.pos.x as int)
                &&& c.1 == placement_optimality(world, shape, c.0.pos)
            },
        forall|x: i16|
            #![trigger fastfallen_pos(world, shape, Pos { x, y })]
            lo <= x < hi && cells_in_columns(world, shape, x as int)
                ==> column_placements(world, shape, y, lo, hi).contains(
                (
                    Target { pos: fastfallen_pos(world, shape, Pos { x, y }), rotation: shape.turn() },
                    placement_optimality(world, shape, fastfallen_pos(world, shape, Pos { x, y })),
                ),
            ),
    decreases hi - lo,
{
    if hi > lo {
        lemma_column_placements(world, shape, y, lo, hi - 1);
        lemma_bounds_in_columns(world, shape, hi - 1);
        let earlier = column_placements(world, shape, y, lo, hi - 1);
        let c = column_placements(world, shape, y, lo, hi);
        assert forall|i: int| 0 <= i < earlier.len() implies #[trigger] c[i] == earlier[i] by {}
        assert forall|x: i16|
            #![trigger fastfallen_pos(world, shape, Pos { x, y })]
            lo <= x < hi && cells_in_columns(world, shape, x as int) implies c.contains(
                (
                    Target { pos: fastfallen_pos(world, shape, Pos { x, y }), rotation: shape.turn() },
                    placement_optimality(world, shape, fastfallen_pos(world, shape, Pos { x, y })),
                ),
            ) by {
            let e = (
                Target { pos: fastfallen_pos(world, shape, Pos { x, y }), rotation: shape.turn() },
                placement_optimality(world, shape, fastfallen_pos(world, shape, Pos { x, y })),
            );
            if x < hi - 1 {
                let i = choose|i: int| 0 <= i < earlier.len() && earlier[i] == e;
                assert(c[i] == e);
            } else {
                assert(x == (hi - 1) as i16);
                assert(c[c.len() - 1] == c.last());
            }
        }
    }
}

/// The placements of the last `k` rotations: each is one of those rotations fallen from the
/// row of `pos` in its column, with its occupied cells in the world's columns and with its
/// optimality; and each of those rotations in each column whose occupied cells lie in the
/// world's columns gives one of them
proof fn lemma_placements<W: World>(world: &W, shape: Shape, pos: Pos, k: int)
    requires
        0 <= k <= shape.rotation_count_spec(),
        world.width_spec() <= 255,
    ensures
        forall|i: int|
            #![trigger placements(world, shape, pos, k)[i]]
            0 <= i < placements(world, shape, pos, k).len() ==> {
                let c = placements(world, shape, pos, k)[i];
                let r = RotatedShape::with_turn(shape, c.0.rotation);
                &&& shape.rotation_count_spec() - k <= c.0.rotation < shape.rotation_count_spec()
                &&& c.0.pos == fastfallen_pos(world, r, Pos { x: c.0.pos.x, y: pos.y })
                &&& cells_in_columns(world, r, c.0.pos.x as int)
                &&& c.1 == placement_optimality(world, r, c.0.pos)
            },
        forall|t: u8, x: i16|
            #![trigger fastfallen_pos(world, RotatedShape::with_turn(shape, t), Pos { x, y: pos.y })]
            shape.rotation_count_spec() - k <= t < shape.rotation_count_spec() && cells_in_columns(
                world,
                RotatedShape::with_turn(shape, t),
                x as int,
            ) ==> placements(world, shape, pos, k).contains(
                (
                    Target {
                        pos: fastfallen_pos(
                            world,
                            RotatedShape::with_turn(shape, t),
                            Pos { x, y: pos.y },
                        ),
                        rotation: t,
                    },
                    placement_optimality(
                        world,
                        RotatedShape::with_turn(shape, t),
                        fastfallen_pos(world, RotatedShape::with_turn(shape, t), Pos { x, y: pos.y }),
                    ),
                ),
            ),
    decreases k,
{
    if k > 0 {
        lemma_placements(world, shape, pos, k - 1);
        let n = shape.rotation_count_spec() as int;
        let turn = (n - k) as u8;
        let r = RotatedShape::with_turn(shape, turn);
        RotatedShape::lemma_with_turn(shape, turn);
        let lo = 1 - shape.size_spec().x;
        let hi = world.width_spec() as int;
        lemma_column_placements(world, r, pos.y, lo, hi);
        let a = placements(world, shape, pos, k - 1);
        let b = column_placements(world, r, pos.y, lo, hi);
        let c = placements(world, shape, pos, k);
        assert(c == a + b);
        assert forall|i: int| 0 <= i < c.len() implies {
            let e = #[trigger] c[i];
            let rr = RotatedShape::with_turn(shape, e.0.rotation);
            &&& n - k <= e.0.rotation < n
            &&& e.0.pos == fastfallen_pos(world, rr, Pos { x: e.0.pos.x, y: pos.y })
            &&& cells_in_columns(world, rr, e.0.pos.x as int)
            &&& e.1 == placement_optimality(world, rr, e.0.pos)
        } by {
            if i < a.len() {
                assert(c[i] == a[i]);
            } else {
                assert(c[i] == b[i - a.len()]);
                RotatedShape::lemma_with_turn(shape, c[i].0.rotation);
            }
        }
        assert forall|t: u8, x: i16|
            #![trigger fastfallen_pos(world, RotatedShape::with_turn(shape, t), Pos { x, y: pos.y })]
            n - k <= t < n && cells_in_columns(world, RotatedShape::with_turn(shape, t), x as int)
                implies c.contains(
                (
                    Target {
                        pos: fastfallen_pos(
                            world,
                            RotatedShape::with_turn(shape, t),
                            Pos { x, y: pos.y },
                        ),
                        rotation: t,
                    },
                    placement_optimality(
                        world,
                        RotatedShape::with_turn(shape, t),
                        fastfallen_pos(world, RotatedShape::with_turn(shape, t), Pos { x, y: pos.y }),
                    ),
                ),
            ) by {
            let rt = RotatedShape::with_turn(shape, t);
            RotatedShape::lemma_with_turn(shape, t);
            let e = (
                Target { pos: fastfallen_pos(world, rt, Pos { x, y: pos.y }), rotation: t },
                placement_optimality(world, rt, fastfallen_pos(world, rt, Pos { x, y: pos.y })),
            );
            lemma_bounds_in_columns(world, rt, x as int);
            if t > n - k {
                let i = choose|i: int| 0 <= i < a.len() && a[i] == e;
                assert(c[i] == e);
            } else {
                assert(t == turn);
                let i = choose|i: int| 0 <= i < b.len() && b[i] == e;
                assert(c[a.len() + i] == e);
            }
        }
    }
}

/// The brute-force computer player chooses the best placement: whatever rotation `t` of the
/// shape and whatever column `x` in which all its occupied cells lie in the world's columns
/// (the last column included), there is a target, it is such a placement itself (a rotation
/// of the shape fallen in its column from the row of `pos`), and it is at least as optimal
pub proof fn law_optimal_target_is_best<W: World>(
    world: &W,
    shape: Shape,
    pos: Pos,
    r: Option<Target>,
    t: u8,
    x: i16,
)
    requires
        r == (match best_placement(placements(world, shape, pos, shape.rotation_count_spec() as int)) {
            Some(b) => Some(b.0),
            None => None,
        }),
        t < shape.rotation_count_spec(),
        cells_in_columns(world, RotatedShape::with_turn(shape, t), x as int),
    ensures
        r matches Some(target) && {
            let rt = RotatedShape::with_turn(shape, target.rotation);
            let rs = RotatedShape::with_turn(shape, t);
            &&& target.rotation < shape.rotation_count_spec()
            &&& target.pos == fastfallen_pos(world, rt, Pos { x: target.pos.x, y: pos.y })
            &&& cells_in_columns(world, rt, target.pos.x as int)
            &&& placement_optimality(world, rt, target.pos) >= placement_optimality(
                world,
                rs,
                fastfallen_pos(world, rs, Pos { x, y: pos.y }),
            )
        },
{
    world.lemma_bounds();
    let rs = RotatedShape::with_turn(shape, t);
    RotatedShape::lemma_with_turn(shape, t);
    let p = fastfallen_pos(world, rs, Pos { x, y: pos.y });
    let n = shape.rotation_count_spec() as int;
    lemma_placements(world, shape, pos, n);
    let c = placements(world, shape, pos, n);
    let e = (Target { pos: p, rotation: t }, placement_optimality(world, rs, p));
    assert(c.contains(e));
    let j = choose|j: int| 0 <= j < c.len() && c[j] == e;
    lemma_best_placement(c);
    let b = best_placement(c)->0;
    let i = choose|i: int|
        #![trigger c[i]]
        {
            &&& 0 <= i < c.len()
            &&& c[i] == b
            &&& forall|j: int| 0 <= j < c.len() ==> #[trigger] c[j].1 <= b.1
            &&& forall|j: int| 0 <= j < i ==> #[trigger] c[j].1 < b.1
        };
    assert(c[j].1 <= b.1);
    assert(c[i] == b);
}

} // verus!
