//! The game's state transitions for a player in a world

use vstd::prelude::*;

use crate::data::cell::Cell as CellTrait;
use crate::data::grid::{axis_fits, in_rect, Grid, Pos, PosAxis, RectangularBound, SizeAxis};
use crate::data::shapes::tetrimino::{
    lemma_some_cell, shape_cell, some_cell, RotatedShape, Shape,
};
use crate::data::world::{
    cleared_rows, covers, fits_at, fits_from, full_rows_count, imprinted_rows, intersection,
    kept_rows, row_full,
    lemma_intersection_fits, rows_view, same_frame, shape_cell_pos, shape_pos_fits,
    CellIntersection, World,
};
use crate::data::cell::ShapeCell;
use crate::data::world::empty_row;
use crate::game::data::mappings::Mappings;
use crate::game::data::player::{lookahead_ok, Player, Settings};
use crate::game::data::{
    players_get, players_get_mut, players_insert, players_keys, players_len, worlds_get,
    worlds_get_mut, worlds_insert, Data, GameWorld, Input, PlayerId, WorldId,
};
use crate::input::{input_effect, perform, TimerAction};

verus! {

/// Whether the shape placed at `pos` intersects the world's cells or its boundary
pub open spec fn collides<G: Grid>(world: &G, shape: RotatedShape, pos: Pos) -> bool {
    intersection(world, shape, pos) != CellIntersection::NoIntersection
}

/// The row that the shape in column `x` falls to when it starts at row `y`: the first row
/// from `y` on at which it would collide one row further down (`h` when there is none
/// before row `h`)
pub open spec fn fall_row<G: Grid>(world: &G, shape: RotatedShape, x: PosAxis, y: int, h: int) -> int
    decreases h - y,
{
    if y >= h {
        y
    } else if collides(world, shape, Pos { x, y: (y + 1) as i16 }) {
        y
    } else {
        fall_row(world, shape, x, y + 1, h)
    }
}

/// The position of the shape if it were to fast fall downwards in the world from `pos`
pub open spec fn fastfallen_pos<W: World>(world: &W, shape: RotatedShape, pos: Pos) -> Pos {
    Pos { x: pos.x, y: fall_row(world, shape, pos.x, pos.y as int, world.height_spec() as int) as i16 }
}

/// A position at which a shape's four-by-four box meets the world: where a shape that
/// fits in the world can stand
pub open spec fn pos_in_range<W: World>(world: &W, pos: Pos) -> bool {
    &&& -4 < pos.x < world.width_spec()
    &&& -4 < pos.y < world.height_spec()
}

/// The position moved by `(dx, dy)` is computed without overflow, and the cells of a shape
/// placed there have positions that fit in a position axis
pub open spec fn shift_fits(pos: Pos, dx: int, dy: int) -> bool {
    &&& i16::MIN <= pos.x + dx <= i16::MAX - 4
    &&& i16::MIN <= pos.y + dy <= i16::MAX - 4
}

/// A shape that fits at a position has its occupied cell inside the world
pub proof fn lemma_fits_in_range<W: World>(world: &W, shape: RotatedShape, pos: Pos)
    requires
        shape.turn() < shape.kind().rotation_count_spec(),
        fits_at(world, shape, pos),
        shape_pos_fits(pos),
    ensures
        pos_in_range(world, pos),
{
    world.lemma_bounds();
    lemma_some_cell(shape);
    let (cx, cy) = some_cell(shape.kind());
    assert(shape_cell(shape, cx, cy));
    assert(!world.oob(shape_cell_pos(pos, cx, cy)));
}

/// The fall from a row above the world's last row ends inside the world
pub proof fn lemma_fall_target<W: World>(world: &W, shape: RotatedShape, pos: Pos)
    requires
        shape.turn() < shape.kind().rotation_count_spec(),
        shape_pos_fits(pos),
        pos.y < world.height_spec(),
    ensures
        fall_row(world, shape, pos.x, pos.y as int, world.height_spec() as int)
            < world.height_spec(),
{
    world.lemma_bounds();
    let h = world.height_spec() as int;
    let bottom = Pos { x: pos.x, y: h as i16 };
    lemma_some_cell(shape);
    let (cx, cy) = some_cell(shape.kind());
    assert(shape_cell(shape, cx, cy));
    assert(world.oob(shape_cell_pos(bottom, cx, cy)));
    lemma_intersection_fits(world, shape, bottom, 0, 0);
    assert(collides(world, shape, bottom));
    lemma_fall_row_below(world, shape, pos.x, pos.y as int, h);
}

/// Falling from a row above `h - 1` stops at `h - 1` at the latest when the shape
/// collides at row `h`
proof fn lemma_fall_row_below<G: Grid>(world: &G, shape: RotatedShape, x: PosAxis, y: int, h: int)
    requires
        y <= h - 1,
        collides(world, shape, Pos { x, y: h as i16 }),
    ensures
        y <= fall_row(world, shape, x, y, h) <= h - 1,
    decreases h - y,
{
    if y < h - 1 && !collides(world, shape, Pos { x, y: (y + 1) as i16 }) {
        lemma_fall_row_below(world, shape, x, y + 1, h);
    }
}

/// The fall from a row where the shape does not collide ends at a row where it does not
/// collide either, right above one where it would
proof fn lemma_fall_row_lands<G: Grid>(world: &G, shape: RotatedShape, x: PosAxis, y: int, h: int)
    requires
        i16::MIN <= y,
        h <= 255,
        !collides(world, shape, Pos { x, y: y as i16 }),
        fall_row(world, shape, x, y, h) < h,
    ensures
        !collides(world, shape, Pos { x, y: fall_row(world, shape, x, y, h) as i16 }),
        collides(world, shape, Pos { x, y: (fall_row(world, shape, x, y, h) + 1) as i16 }),
    decreases h - y,
{
    if y < h && !collides(world, shape, Pos { x, y: (y + 1) as i16 }) {
        lemma_fall_row_lands(world, shape, x, y + 1, h);
    }
}

/// Fast falling lands the shape: where it lands it does not collide (when it did not where
/// it started), and one row further down it would
pub proof fn law_fastfall_lands<W: World>(world: &W, shape: RotatedShape, pos: Pos)
    requires
        shape.turn() < shape.kind().rotation_count_spec(),
        shape_pos_fits(pos),
        pos.y < world.height_spec(),
        !collides(world, shape, pos),
    ensures
        !collides(world, shape, fastfallen_pos(world, shape, pos)),
        collides(
            world,
            shape,
            Pos { x: pos.x, y: (fastfallen_pos(world, shape, pos).y + 1) as i16 },
        ),
        pos.y <= fastfallen_pos(world, shape, pos).y < world.height_spec(),
{
    world.lemma_bounds();
    lemma_fall_target(world, shape, pos);
    lemma_fall_row_lands(world, shape, pos.x, pos.y as int, world.height_spec() as int);
    lemma_fall_row_at_least(world, shape, pos.x, pos.y as int, world.height_spec() as int);
}

/// The fall never ends above the row it starts from
proof fn lemma_fall_row_at_least<G: Grid>(world: &G, shape: RotatedShape, x: PosAxis, y: int, h: int)
    ensures
        y <= fall_row(world, shape, x, y, h),
    decreases h - y,
{
    if y < h && !collides(world, shape, Pos { x, y: (y + 1) as i16 }) {
        lemma_fall_row_at_least(world, shape, x, y + 1, h);
    }
}

/// Returns the position of the shape if it were to fast fall downwards in the world from
/// the given position: the position of the projected shape on the ground
pub fn fastfallen_shape_pos<W>(shape: &RotatedShape, world: &W, shape_pos: Pos) -> (r: Pos) where
    W: World,

    requires
        shape_pos_fits(shape_pos),
        shape_pos.y < world.height_spec(),
    ensures
        r == fastfallen_pos(world, *shape, shape_pos),
        shape_pos.y <= r.y < world.height_spec(),
{
    proof {
        use_type_invariant(shape);
        shape.lemma_inv();
        lemma_fall_target(world, *shape, shape_pos);
    }
    let height = world.height();
    let mut y: PosAxis = shape_pos.y;
    while y < height as PosAxis
        invariant
            height == world.height_spec(),
            shape_pos_fits(shape_pos),
            shape_pos.y <= y <= height,
            fall_row(world, *shape, shape_pos.x, shape_pos.y as int, height as int) == fall_row(
                world,
                *shape,
                shape_pos.x,
                y as int,
                height as int,
            ),
            fall_row(world, *shape, shape_pos.x, shape_pos.y as int, height as int) < height,
        decreases height - y,
    {
        match world.shape_intersects(shape, shape_pos.with_y(y + 1)) {
            CellIntersection::Imprint(_) | CellIntersection::OutOfBounds(_) => {
                return shape_pos.with_y(y);
            },
            CellIntersection::NoIntersection => {},
        }
        y = y + 1;
    }
    shape_pos
}

/// The effect of trying to move the player by `delta`: when the shape does not collide at
/// the new position (`moved`), the player moves there, recalculating the fastfall shadow on a
/// horizontal move when the shadow is enabled; otherwise the player stays as it was
pub open spec fn move_effect<W: World>(world: &W, old: Player, new: Player, delta: Pos, moved: bool) -> bool {
    let target = Pos { x: (old.pos.x + delta.x) as i16, y: (old.pos.y + delta.y) as i16 };
    &&& moved == !collides(world, old.shape, target)
    &&& moved ==> {
        &&& new.pos == target
        &&& new.shadow_pos == (if old.settings.fastfall_shadow && delta.x != 0 {
            Some(fastfallen_pos(world, old.shape, target))
        } else {
            old.shadow_pos
        })
        &&& new.shape == old.shape
        &&& new.shapes_lookahead == old.shapes_lookahead
        &&& new.world == old.world
        &&& new.points == old.points
        &&& new.settings == old.settings
    }
    &&& !moved ==> new == old
}

/// A move undoes the opposite move: after a successful move by `delta` from a position where
/// the shape did not collide, the move by `-delta` succeeds and brings the player back
pub proof fn law_move_back<W: World>(
    world: &W,
    p0: Player,
    p1: Player,
    p2: Player,
    delta: Pos,
    moved_back: bool,
)
    requires
        i16::MIN < delta.x,
        i16::MIN < delta.y,
        axis_fits(p0.pos.x + delta.x),
        axis_fits(p0.pos.y + delta.y),
        !collides(world, p0.shape, p0.pos),
        move_effect(world, p0, p1, delta, true),
        move_effect(world, p1, p2, Pos { x: (-delta.x) as i16, y: (-delta.y) as i16 }, moved_back),
    ensures
        moved_back,
        p2.pos == p0.pos,
        p2.shape == p0.shape,
        p2.world == p0.world,
        p2.shapes_lookahead == p0.shapes_lookahead,
{
}

/// Moves player if there are no collisions at the new position.
/// Returns whether the movement was successful or not due to collisions.
/// With the fastfall shadow enabled, a horizontal move recalculates the shadow's position.
pub fn move_player<W>(player: &mut Player, world: &W, delta: Pos) -> (r: bool) where W: World
    requires
        shift_fits(old(player).pos, delta.x as int, delta.y as int),
    ensures
        move_effect(world, *old(player), *final(player), delta, r),
        r ==> pos_in_range(world, final(player).pos),
{
    let target = Pos { x: player.pos.x + delta.x, y: player.pos.y + delta.y };
    match world.shape_intersects(&player.shape, target) {
        CellIntersection::Imprint(_) | CellIntersection::OutOfBounds(_) => false,
        CellIntersection::NoIntersection => {
            proof {
                use_type_invariant(&player.shape);
                player.shape.lemma_inv();
                lemma_intersection_fits(world, player.shape, target, 0, 0);
                lemma_fits_in_range(world, player.shape, target);
            }
            player.pos.x = player.pos.x + delta.x;
            player.pos.y = player.pos.y + delta.y;

            if player.settings.fastfall_shadow && delta.x != 0 {
                player.shadow_pos = Some(fastfallen_shape_pos(&player.shape, world, player.pos));
            }
            true
        },
    }
}

/// The offset along x by which a colliding shape moves out of the collision: the first
/// `i * sign` for `i` from `i` up to (not including) `w` at which it does not collide
pub open spec fn kick_offset<G: Grid>(
    world: &G,
    shape: RotatedShape,
    pos: Pos,
    sign: int,
    i: int,
    w: int,
) -> Option<int>
    decreases w - i,
{
    if i < 1 || i >= w {
        None
    } else if !collides(world, shape, Pos { x: (pos.x + i * sign) as i16, y: pos.y }) {
        Some(i * sign)
    } else {
        kick_offset(world, shape, pos, sign, i + 1, w)
    }
}

/// A found offset is a step of one to `w - 1` columns at which the shape does not collide
pub proof fn lemma_kick_offset<G: Grid>(
    world: &G,
    shape: RotatedShape,
    pos: Pos,
    sign: int,
    i: int,
    w: int,
)
    requires
        sign == 1 || sign == -1,
    ensures
        kick_offset(world, shape, pos, sign, i, w) matches Some(d) ==> (1 <= d * sign < w
            && !collides(world, shape, Pos { x: (pos.x + d) as i16, y: pos.y })),
    decreases w - i,
{
    if i >= 1 && i < w && collides(world, shape, Pos { x: (pos.x + i * sign) as i16, y: pos.y }) {
        lemma_kick_offset(world, shape, pos, sign, i + 1, w);
    }
}

/// Moving away from a collision at `hit`: towards the right when the collision lies left of
/// the current shape's horizontal center, else towards the left
pub open spec fn kick_sign(current: RotatedShape, pos: Pos, hit: Pos) -> int {
    if hit.x < pos.x + current.kind().size_spec().x / 2 {
        1
    } else {
        -1
    }
}

/// The horizontal offset at which the transformed shape is placed, or `None` when the
/// collision cannot be resolved
pub open spec fn resolve_offset<G: Grid>(
    world: &G,
    current: RotatedShape,
    shape: RotatedShape,
    pos: Pos,
) -> Option<int> {
    match intersection(world, shape, pos) {
        CellIntersection::NoIntersection => Some(0),
        CellIntersection::Imprint(hit) => kick_offset(
            world,
            shape,
            pos,
            kick_sign(current, pos, hit),
            1,
            shape.kind().size_spec().x as int,
        ),
        CellIntersection::OutOfBounds(hit) => kick_offset(
            world,
            shape,
            pos,
            kick_sign(current, pos, hit),
            1,
            shape.kind().size_spec().x as int,
        ),
    }
}

/// The effect of trying to give the player the transformed shape: when the collision can be
/// resolved (`resolved`), the player takes the shape, moved by the offset, and the fastfall
/// shadow is recalculated when enabled; otherwise the player stays as it was
pub open spec fn resolve_effect<W: World>(world: &W, old: Player, new: Player, shape: RotatedShape, resolved: bool) -> bool {
    &&& resolved == resolve_offset(world, old.shape, shape, old.pos) is Some
    &&& match resolve_offset(world, old.shape, shape, old.pos) {
        Some(d) => {
            &&& new.pos == (Pos { x: (old.pos.x + d) as i16, y: old.pos.y })
            &&& new.shape == shape
            &&& new.shadow_pos == (if old.settings.fastfall_shadow {
                Some(fastfallen_pos(world, shape, new.pos))
            } else {
                old.shadow_pos
            })
            &&& new.shapes_lookahead == old.shapes_lookahead
            &&& new.world == old.world
            &&& new.points == old.points
            &&& new.settings == old.settings
        },
        None => new == old,
    }
}

/// A transformation that resolves leaves the player's new shape where it does not collide,
/// and one that does not resolve leaves the player as it was
pub proof fn law_resolved_shape_fits<W: World>(
    world: &W,
    old: Player,
    new: Player,
    shape: RotatedShape,
    resolved: bool,
)
    requires
        resolve_effect(world, old, new, shape, resolved),
    ensures
        resolved ==> !collides(world, new.shape, new.pos),
        !resolved ==> new == old,
{
    if resolved {
        match intersection(world, shape, old.pos) {
            CellIntersection::NoIntersection => {
                assert(new.pos == (Pos { x: (old.pos.x + 0) as i16, y: old.pos.y }));
            },
            CellIntersection::Imprint(hit) => {
                lemma_kick_offset(
                    world,
                    shape,
                    old.pos,
                    kick_sign(old.shape, old.pos, hit),
                    1,
                    shape.kind().size_spec().x as int,
                );
            },
            CellIntersection::OutOfBounds(hit) => {
                lemma_kick_offset(
                    world,
                    shape,
                    old.pos,
                    kick_sign(old.shape, old.pos, hit),
                    1,
                    shape.kind().size_spec().x as int,
                );
            },
        }
    }
}

/// Checks if the player with the transformed shape is intersecting with the stuff in the
/// world or the world boundaries. If that is true, tries to resolve the collision by moving
/// in the x axis. If the collision cannot be resolved, the player stays as it was and false
/// is returned, otherwise the player takes the shape and true is returned.
pub fn resolve_transformed_player<W>(player: &mut Player, shape: RotatedShape, world: &W) -> (r:
    bool) where W: World
    requires
        shift_fits(old(player).pos, 1 - shape.kind().size_spec().x, 0),
        shift_fits(old(player).pos, shape.kind().size_spec().x - 1, 0),
    ensures
        resolve_effect(world, *old(player), *final(player), shape, r),
        r ==> pos_in_range(world, final(player).pos),
{
    proof {
        use_type_invariant(&shape);
        shape.lemma_inv();
        use_type_invariant(&player.shape);
        player.shape.lemma_inv();
    }
    let pos = player.pos;
    let offset: Option<PosAxis> = match world.shape_intersects(&shape, pos) {
        CellIntersection::NoIntersection => Some(0),
        CellIntersection::Imprint(hit) | CellIntersection::OutOfBounds(hit) => {
            let center_x = pos.x + player.shape.center_x() as PosAxis;
            let sign: PosAxis = if hit.x < center_x {
                1
            } else {
                -1
            };
            let width = shape.dimensions().x;
            let mut i: u8 = 1;
            let mut found: Option<PosAxis> = None;
            while i < width && found.is_none()
                invariant
                    width == shape.kind().size_spec().x,
                    1 <= i <= width,
                    1 <= width <= 4,
                    shift_fits(pos, 1 - width, 0),
                    shift_fits(pos, width - 1, 0),
                    sign == kick_sign(player.shape, pos, hit),
                    found is None ==> kick_offset(world, shape, pos, sign as int, 1, width as int)
                        == kick_offset(world, shape, pos, sign as int, i as int, width as int),
                    found matches Some(d) ==> kick_offset(
                        world,
                        shape,
                        pos,
                        sign as int,
                        1,
                        width as int,
                    ) == Some(d as int),
                decreases width - i,
            {
                let d = i as PosAxis * sign;
                match world.shape_intersects(&shape, pos.with_x(pos.x + d)) {
                    CellIntersection::NoIntersection => {
                        found = Some(d);
                    },
                    _ => {},
                }
                i = i + 1;
            }
            found
        },
    };
    match offset {
        None => false,
        Some(d) => {
            proof {
                use_type_invariant(&shape);
                shape.lemma_inv();
                lemma_kick_offset(world, shape, pos, 1, 1, shape.kind().size_spec().x as int);
                lemma_kick_offset(world, shape, pos, -1, 1, shape.kind().size_spec().x as int);
                assert(1 <= shape.kind().size_spec().x <= 4);
            }
            let target = pos.with_x(pos.x + d);
            proof {
                shape.lemma_inv();
                assert(!collides(world, shape, target));
                lemma_intersection_fits(world, shape, target, 0, 0);
                lemma_fits_in_range(world, shape, target);
            }
            player.pos.x = pos.x + d;
            player.shape = shape;
            if player.settings.fastfall_shadow {
                player.shadow_pos = Some(fastfallen_shape_pos(&player.shape, world, player.pos));
            }
            true
        },
    }
}

/// The position a shape spawns at: centered horizontally, at the top of the world
pub open spec fn respawn_pos_spec<W: World>(shape: RotatedShape, world: &W) -> Pos {
    Pos { x: (world.width_spec() / 2 - shape.kind().size_spec().x / 2) as i16, y: 0 }
}

/// Returns the origin position of a player based on its shape and the world:
/// centered horizontally, at the top of the world
pub fn default_respawn_pos<W>(shape: &RotatedShape, world: &W) -> (r: Pos) where W: World
    ensures
        r == respawn_pos_spec(*shape, world),
        shape_pos_fits(r),
        world.height_spec() >= 1 ==> pos_in_range(world, r),
{
    proof {
        world.lemma_bounds();
    }
    Pos { x: world.width() as PosAxis / 2 - shape.center_x() as PosAxis, y: 0 }
}

/// Respawns the player with the new shape (in its initial rotation) at `pos`.
/// Returns whether the respawning was successful: false when the new shape at the position
/// collides with another imprinted shape.
pub fn respawn_player<W>(player: &mut Player, world: &W, new_shape: Shape, pos: Pos) -> (r:
    bool) where W: World
    requires
        shape_pos_fits(pos),
        old(player).settings.fastfall_shadow ==> pos.y < world.height_spec(),
    ensures
        final(player).shape.kind() == new_shape,
        final(player).shape.turn() == 0,
        final(player).pos == pos,
        final(player).shadow_pos == (if old(player).settings.fastfall_shadow {
            Some(fastfallen_pos(world, final(player).shape, pos))
        } else {
            old(player).shadow_pos
        }),
        final(player).shapes_lookahead == old(player).shapes_lookahead,
        final(player).world == old(player).world,
        final(player).points == old(player).points,
        final(player).settings == old(player).settings,
        r == !(intersection(world, final(player).shape, pos) is Imprint),
{
    player.shape = RotatedShape::new(new_shape);
    player.pos = pos;

    if player.settings.fastfall_shadow {
        player.shadow_pos = Some(fastfallen_shape_pos(&player.shape, world, player.pos));
    }
    match world.shape_intersects(&player.shape, player.pos) {
        CellIntersection::Imprint(_) => false,
        _ => true,
    }
}

/// A new player in the given world: the shape in its initial rotation at its respawn position
pub fn spawn_player<W>(world_id: WorldId, settings: Settings, shape: Shape, world: &W) -> (p:
    Player) where W: World
    ensures
        p.shape.kind() == shape,
        p.shape.turn() == 0,
        p.pos == respawn_pos_spec(p.shape, world),
        world.height_spec() >= 1 ==> pos_in_range(world, p.pos),
        p.shadow_pos is None,
        p.shapes_lookahead is None,
        p.world == world_id,
        p.points == 0,
        p.settings == settings,
{
    let shape = RotatedShape::new(shape);
    Player {
        pos: default_respawn_pos(&shape, world),
        shadow_pos: None,
        shapes_lookahead: None,
        shape,
        world: world_id,
        points: 0,
        settings,
    }
}

/// What happened in one step of gravity
#[derive(Copy, Clone, Debug, PartialEq)]
pub enum GravityOutcome {
    /// The player moved one row down, to `pos`
    Moved { pos: Pos },
    /// The player could not move down: its shape was imprinted at its position, `full_rows`
    /// full rows were removed, and the player respawned at `spawn` with `new_shape`
    /// (`respawned` is false when the new shape collides there with an imprinted cell)
    Imprinted {
        shape: RotatedShape,
        pos: Pos,
        full_rows: SizeAxis,
        new_shape: Shape,
        spawn: Pos,
        respawned: bool,
    },
}

/// The first row that is checked for full rows after imprinting at `pos`
pub open spec fn check_start(pos: Pos) -> int {
    if pos.y > 0 {
        pos.y as int
    } else {
        0
    }
}

/// The row after the last one that is checked for full rows after imprinting `shape` at `pos`
pub open spec fn check_end<W: World>(world: &W, shape: RotatedShape, pos: Pos) -> int {
    let end = check_start(pos) + shape.kind().size_spec().y;
    if end < world.height_spec() {
        end
    } else {
        world.height_spec() as int
    }
}

/// The effect of one step of gravity on the player and the world, given the outcome
pub open spec fn gravity_effect<W: World>(
    old_world: &W,
    new_world: &W,
    old: Player,
    new: Player,
    cell: W::Cell,
    r: GravityOutcome,
) -> bool {
    match r {
        GravityOutcome::Moved { pos } => {
            &&& !collides(
                old_world,
                old.shape,
                Pos { x: old.pos.x, y: (old.pos.y + 1) as i16 },
            )
            &&& pos == (Pos { x: old.pos.x, y: (old.pos.y + 1) as i16 })
            &&& new.pos == pos
            &&& new.shape == old.shape
            &&& new.shadow_pos == old.shadow_pos
            &&& new.shapes_lookahead == old.shapes_lookahead
            &&& *new_world == *old_world
        },
        GravityOutcome::Imprinted { shape, pos, full_rows, new_shape, spawn, respawned } => {
            let imprinted = imprinted_rows(rows_view(old_world), shape, pos, cell);
            let a = check_start(pos);
            let b = check_end(old_world, shape, pos);
            &&& collides(
                old_world,
                old.shape,
                Pos { x: old.pos.x, y: (old.pos.y + 1) as i16 },
            )
            &&& shape == old.shape
            &&& pos == old.pos
            &&& rows_view(new_world) == cleared_rows(
                imprinted,
                a,
                b,
                old_world.width_spec() as nat,
            )
            &&& full_rows == full_rows_count(imprinted, a, b)
            &&& spawn == respawn_pos_spec(shape, old_world)
            &&& new.shape.kind() == new_shape
            &&& new.shape.turn() == 0
            &&& new.pos == spawn
            &&& respawned == !(intersection(new_world, new.shape, spawn) is Imprint)
            &&& new.shadow_pos == (if old.settings.fastfall_shadow {
                Some(fastfallen_pos(new_world, new.shape, spawn))
            } else {
                old.shadow_pos
            })
            &&& match old.shapes_lookahead {
                None => new.shapes_lookahead is None,
                Some(q) => {
                    &&& new_shape == q@.last()
                    &&& new.shapes_lookahead matches Some(q2)
                    &&& q2@.drop_first() =~= q@.drop_last()
                },
            }
        },
    }
}

/// One step of gravity: the player moves one row down if nothing is below; else its shape is
/// imprinted on the world with `cell`, the full rows among those the shape occupies are
/// removed, and the player respawns with the next shape (a shape drawn from `rng` is queued)
pub fn gravity_step<W>(
    player: &mut Player,
    world: &mut W,
    cell: W::Cell,
    rng: &mut rand::rngs::StdRng,
) -> (r: GravityOutcome) where W: World
    requires
        shift_fits(old(player).pos, 0, 1),
        collides(old(world), old(player).shape, Pos { x: old(player).pos.x, y: (old(player).pos.y + 1) as i16 })
            ==> old(player).pos.y <= old(world).height_spec() && old(player).pos.y
            + old(player).shape.kind().size_spec().y <= 255,
        old(player).settings.fastfall_shadow ==> old(world).height_spec() >= 1,
        lookahead_ok(old(player)),
    ensures
        same_frame(final(world), old(world)),
        final(world).height_spec() >= 1 ==> pos_in_range(final(world), final(player).pos),
        lookahead_ok(final(player)),
        final(player).world == old(player).world,
        final(player).points == old(player).points,
        final(player).settings == old(player).settings,
        gravity_effect(old(world), final(world), *old(player), *final(player), cell, r),
        r is Moved ==> *final(rng) == *old(rng),
{
    proof {
        old(world).lemma_bounds();
    }
    if move_player(player, world, Pos { x: 0, y: 1 }) {
        GravityOutcome::Moved { pos: player.pos }
    } else {
        let shape = player.shape;
        let pos = player.pos;
        world.imprint_shape(&shape, pos, cell);
        proof {
            world.lemma_bounds();
        }
        let min_y: SizeAxis = if pos.y > 0 {
            pos.y as SizeAxis
        } else {
            0
        };
        let end = min_y + shape.dimensions().y;
        let max_y: SizeAxis = if end < world.height() {
            end
        } else {
            world.height()
        };
        let full_rows = if min_y != max_y {
            world.handle_full_rows(min_y..max_y)
        } else {
            proof {
                let rows = rows_view(world);
                assert(rows.subrange(min_y as int, max_y as int) =~= Seq::<Seq<W::Cell>>::empty());
                assert(cleared_rows(rows, min_y as int, max_y as int, world.width_spec() as nat)
                    =~= rows);
            }
            0
        };
        let drawn = Shape::rand(rng);
        let new_shape = player.next_shape(drawn);
        let spawn = default_respawn_pos(&player.shape, world);
        let respawned = respawn_player(player, world, new_shape, spawn);
        GravityOutcome::Imprinted { shape, pos, full_rows, new_shape, spawn, respawned }
    }
}

/// The number of full rows among the rows
pub open spec fn count_full<C: CellTrait>(rows: Seq<Seq<C>>) -> int
    decreases rows.len(),
{
    if rows.len() == 0 {
        0
    } else {
        (if row_full(rows[0]) {
            1int
        } else {
            0int
        }) + count_full(rows.drop_first())
    }
}

/// The rows kept are the rows that are not full: as many as the rows less the full ones,
/// none of them full
proof fn lemma_kept_rows_not_full<C: CellTrait>(rows: Seq<Seq<C>>)
    ensures
        kept_rows(rows).len() + count_full(rows) == rows.len(),
        forall|i: int| 0 <= i < kept_rows(rows).len() ==> !row_full(#[trigger] kept_rows(rows)[i]),
    decreases rows.len(),
{
    if rows.len() > 0 {
        lemma_kept_rows_not_full(rows.drop_first());
        let head: Seq<Seq<C>> = if row_full(rows[0]) {
            Seq::empty()
        } else {
            seq![rows[0]]
        };
        let rest = kept_rows(rows.drop_first());
        assert(kept_rows(rows) == head + rest);
        assert forall|i: int| 0 <= i < kept_rows(rows).len() implies !row_full(
            #[trigger] kept_rows(rows)[i],
        ) by {
            if i < head.len() {
                assert(kept_rows(rows)[i] == head[i]);
            } else {
                assert(kept_rows(rows)[i] == rest[i - head.len()]);
            }
        }
    }
}

/// The full rows of two runs of rows together are those of each
proof fn lemma_count_full_add<C: CellTrait>(a: Seq<Seq<C>>, b: Seq<Seq<C>>)
    ensures
        count_full(a + b) == count_full(a) + count_full(b),
    decreases a.len(),
{
    if a.len() > 0 {
        lemma_count_full_add(a.drop_first(), b);
        assert((a + b).drop_first() =~= a.drop_first() + b);
        assert((a + b)[0] == a[0]);
    } else {
        assert(a + b =~= b);
    }
}

/// Rows none of which is full count no full row
proof fn lemma_count_full_none<C: CellTrait>(rows: Seq<Seq<C>>)
    requires
        forall|i: int| 0 <= i < rows.len() ==> !row_full(#[trigger] rows[i]),
    ensures
        count_full(rows) == 0,
    decreases rows.len(),
{
    if rows.len() > 0 {
        assert(!row_full(rows[0]));
        assert forall|i: int| 0 <= i < rows.drop_first().len() implies !row_full(
            #[trigger] rows.drop_first()[i],
        ) by {
            assert(rows.drop_first()[i] == rows[i + 1]);
        }
        lemma_count_full_none(rows.drop_first());
    }
}

/// Keeping the rows of two runs together keeps those of each
proof fn lemma_kept_rows_add<C: CellTrait>(a: Seq<Seq<C>>, b: Seq<Seq<C>>)
    ensures
        kept_rows(a + b) == kept_rows(a) + kept_rows(b),
    decreases a.len(),
{
    if a.len() > 0 {
        lemma_kept_rows_add(a.drop_first(), b);
        assert((a + b).drop_first() =~= a.drop_first() + b);
        assert((a + b)[0] == a[0]);
        let head: Seq<Seq<C>> = if row_full(a[0]) {
            Seq::empty()
        } else {
            seq![a[0]]
        };
        assert(kept_rows(a + b) == head + kept_rows(a.drop_first() + b));
        assert(head + (kept_rows(a.drop_first()) + kept_rows(b)) =~= (head + kept_rows(
            a.drop_first(),
        )) + kept_rows(b));
    } else {
        assert(a + b =~= b);
        assert(kept_rows(a) + kept_rows(b) =~= kept_rows(b));
    }
}

/// Rows none of which is full are all kept
proof fn lemma_kept_rows_none_full<C: CellTrait>(rows: Seq<Seq<C>>)
    requires
        forall|i: int| 0 <= i < rows.len() ==> !row_full(#[trigger] rows[i]),
    ensures
        kept_rows(rows) == rows,
    decreases rows.len(),
{
    if rows.len() > 0 {
        assert forall|i: int| 0 <= i < rows.drop_first().len() implies !row_full(
            #[trigger] rows.drop_first()[i],
        ) by {
            assert(rows.drop_first()[i] == rows[i + 1]);
        }
        lemma_kept_rows_none_full(rows.drop_first());
        assert(!row_full(rows[0]));
        assert(seq![rows[0]] + rows.drop_first() =~= rows);
    }
}

/// A landing clears every row it completes: when no row of the world was full before, the
/// shape imprinted where it landed completes `full_rows` rows, exactly the full rows of the
/// world with the shape imprinted, and none of the world's rows is full afterwards (a full
/// row that the shape's occupied cells reach is never left in the world)
pub proof fn law_landing_clears_completed_rows<W: World>(
    old_world: &W,
    new_world: &W,
    old: Player,
    new: Player,
    cell: W::Cell,
    r: GravityOutcome,
)
    requires
        gravity_effect(old_world, new_world, old, new, cell, r),
        r is Imprinted,
        old.pos.y <= old_world.height_spec(),
        forall|y: int| 0 <= y < old_world.height_spec() ==> !row_full(#[trigger] rows_view(old_world)[y]),
    ensures
        r matches GravityOutcome::Imprinted { full_rows, .. } && full_rows == count_full(
            imprinted_rows(rows_view(old_world), old.shape, old.pos, cell),
        ),
        rows_view(new_world).len() == old_world.height_spec(),
        forall|y: int|
            0 <= y < old_world.height_spec() ==> !row_full(#[trigger] rows_view(new_world)[y]),
        r matches GravityOutcome::Imprinted { full_rows, .. } && rows_view(new_world) == Seq::new(
            full_rows as nat,
            |i: int| empty_row::<W::Cell>(old_world.width_spec() as nat),
        ) + kept_rows(imprinted_rows(rows_view(old_world), old.shape, old.pos, cell)),
{
    old_world.lemma_bounds();
    W::Cell::lemma_empty_cell();
    let h = old_world.height_spec() as int;
    let w = old_world.width_spec() as nat;
    let rows = rows_view(old_world);
    let shape = old.shape;
    let pos = old.pos;
    let imprinted = imprinted_rows(rows, shape, pos, cell);
    let a = check_start(pos);
    let b = check_end(old_world, shape, pos);
    assert(0 <= a <= b <= h);
    // Rows the shape's cells do not reach stay as they were, and so are not full
    assert forall|y: int| 0 <= y < h && !(a <= y < b) implies !row_full(#[trigger] imprinted[y]) by {
        assert forall|x: int| 0 <= x < imprinted[y].len() implies imprinted[y][x] == rows[y][x] by {
            assert(!covers(shape, pos, x, y));
        }
        assert(imprinted[y] =~= rows[y]);
    }
    let pre = imprinted.subrange(0, a);
    let mid = imprinted.subrange(a, b);
    let post = imprinted.subrange(b, h);
    assert(imprinted =~= pre + mid + post);
    lemma_kept_rows_not_full(mid);
    let kept = kept_rows(mid);
    let n = (b - a) - kept.len();
    let empties = Seq::new(n as nat, |i: int| empty_row::<W::Cell>(w));
    assert(rows_view(new_world) == empties + pre + kept + post);
    assert forall|i: int| 0 <= i < pre.len() implies !row_full(#[trigger] pre[i]) by {
        assert(pre[i] == imprinted[i]);
    }
    assert forall|i: int| 0 <= i < post.len() implies !row_full(#[trigger] post[i]) by {
        assert(post[i] == imprinted[b + i]);
    }
    lemma_count_full_none(pre);
    lemma_count_full_none(post);
    lemma_count_full_add(pre, mid);
    lemma_count_full_add(pre + mid, post);
    lemma_kept_rows_none_full(pre);
    lemma_kept_rows_none_full(post);
    lemma_kept_rows_add(pre, mid);
    lemma_kept_rows_add(pre + mid, post);
    assert(kept_rows(imprinted) == pre + kept + post);
    assert(empties + pre + kept + post =~= empties + (pre + kept + post));
    let nw = rows_view(new_world);
    assert forall|y: int| 0 <= y < h implies !row_full(#[trigger] nw[y]) by {
        if y < n {
            assert(nw[y] == empties[y]);
            assert(empties[y][0] == W::Cell::empty_cell());
        } else if y < n + a {
            assert(nw[y] == pre[y - n]);
        } else if y < n + a + kept.len() {
            assert(nw[y] == kept[y - n - a]);
        } else {
            assert(nw[y] == post[y - n - a - kept.len()]);
        }
    }
}

/// A player of the game: its lookahead queue is not empty, and its shape's box meets the
/// world of the game (ten columns, twenty rows), as it does wherever a player spawns, moves
/// or lands
pub open spec fn game_player_ok(p: Player) -> bool {
    &&& lookahead_ok(&p)
    &&& -4 < p.pos.x < 10
    &&& -4 < p.pos.y < 20
}

/// Every player of the game is a proper one
pub open spec fn players_ok(data: &Data) -> bool {
    forall|id: usize|
        #![trigger data.players_view().contains_key(id)]
        data.players_view().contains_key(id) ==> game_player_ok(data.players_view()[id])
}

/// Whether a lookup for some player of `players` in the world reaches `k` among the
/// generators (`None`: the global one)
pub open spec fn reaches(
    players: Map<usize, Player>,
    rngs: &Mappings<rand::rngs::StdRng>,
    world: WorldId,
    k: Option<crate::game::data::mappings::Key>,
) -> bool {
    exists|id: usize|
        #![trigger players[id]]
        players.contains_key(id) && players[id].world == world && rngs.lookup_key(
            world,
            id as PlayerId,
        ) == k
}

/// The effect of resetting the world on one of its players: the next shape from its queue
/// (or a drawn one), in its initial rotation, at the respawn position for its former shape
pub open spec fn reset_effect(old: Player, new: Player, world: &GameWorld) -> bool {
    &&& new.shape.turn() == 0
    &&& new.pos == respawn_pos_spec(old.shape, world)
    &&& new.world == old.world
    &&& new.points == old.points
    &&& new.settings == old.settings
    &&& lookahead_ok(&new)
    &&& match old.shapes_lookahead {
        None => new.shapes_lookahead is None,
        Some(q) => {
            &&& new.shape.kind() == q@.last()
            &&& new.shapes_lookahead matches Some(q2)
            &&& q2@.drop_first() =~= q@.drop_last()
        },
    }
    &&& new.shadow_pos == (if old.settings.fastfall_shadow {
        Some(fastfallen_pos(world, new.shape, new.pos))
    } else {
        old.shadow_pos
    })
}

/// The ingame game state: the worlds and the players, and the random number generators that
/// draw the players' shapes. A shape imprinted on a world leaves cells that remember the
/// shape, and players respawn centered at the top of their world.
pub struct State {
    /// Data of the game state
    pub data: Data,
    /// Random number generator mappings
    pub rngs: Mappings<rand::rngs::StdRng>,
}

impl State {
    /// A game without worlds and players, drawing shapes with the given generator
    pub fn new(rng: rand::rngs::StdRng) -> (r: Self)
        ensures
            r.data.worlds_view().dom() == Set::<usize>::empty(),
            r.data.players_view().dom() == Set::<usize>::empty(),
            r.rngs.global_data() == rng,
            r.rngs.entries().dom() == Set::<crate::game::data::mappings::Key>::empty(),
    {
        State { data: Data::new(), rngs: Mappings::new(rng) }
    }

    /// Adds the world, running, under the id; returns the entry it replaced
    pub fn add_world(&mut self, world_id: WorldId, world: GameWorld) -> (r: Option<(GameWorld, bool)>)
        requires
            players_ok(&old(self).data),
        ensures
            players_ok(&final(self).data),
            final(self).data.worlds_view() == old(self).data.worlds_view().insert(
                world_id as usize,
                (world, false),
            ),
            final(self).data.players_view() == old(self).data.players_view(),
            final(self).rngs == old(self).rngs,
            r is Some <==> old(self).data.worlds_view().contains_key(world_id as usize),
            r matches Some(e) ==> e == old(self).data.worlds_view()[world_id as usize],
    {
        let r = worlds_insert(&mut self.data.worlds, world_id as usize, (world, false));
        proof {
            assert forall|k: usize|
                #![trigger self.data.players_view().contains_key(k)]
                self.data.players_view().contains_key(k) implies game_player_ok(
                self.data.players_view()[k],
            ) by {
                assert(old(self).data.players_view().contains_key(k));
            }
        }
        r
    }

    /// The player under the id
    pub fn player(&self, id: usize) -> (r: Option<&Player>)
        ensures
            r is Some <==> self.data.players_view().contains_key(id),
            r matches Some(p) ==> *p == self.data.players_view()[id],
    {
        players_get(&self.data.players, id)
    }

    /// The world under the id, with whether it is paused
    pub fn world(&self, id: usize) -> (r: Option<&(GameWorld, bool)>)
        ensures
            r is Some <==> self.data.worlds_view().contains_key(id),
            r matches Some(e) ==> *e == self.data.worlds_view()[id],
    {
        worlds_get(&self.data.worlds, id)
    }

    /// The ids of the players, in ascending order
    pub fn player_ids(&self) -> (r: Vec<usize>)
        ensures
            forall|i: int, j: int| 0 <= i < j < r@.len() ==> r@[i] < r@[j],
            forall|k: usize|
                #![trigger self.data.players_view().contains_key(k)]
                self.data.players_view().contains_key(k) <==> r@.contains(k),
    {
        players_keys(&self.data.players)
    }

    /// Adds a player to the specified world and with the specified player settings: its id is
    /// the number of players, and it gets a shape drawn by its generator, in the initial
    /// rotation at the respawn position. Returns the new player id, or `None` (changing
    /// nothing) when the world does not exist.
    pub fn add_player(&mut self, world_id: WorldId, settings: Settings) -> (r: Option<PlayerId>)
        requires
            players_ok(&old(self).data),
        ensures
            players_ok(&final(self).data),
            final(self).data.worlds_view() == old(self).data.worlds_view(),
            final(self).rngs.entries().dom() == old(self).rngs.entries().dom(),
            r is Some <==> old(self).data.worlds_view().contains_key(world_id as usize),
            r is None ==> final(self).data.players_view() == old(self).data.players_view()
                && final(self).rngs == old(self).rngs,
            r matches Some(id) ==> old(self).rngs.changed_at_lookup(&final(self).rngs, world_id, id),
            r matches Some(id) ==> {
                let key = old(self).data.players_view().len();
                let p = final(self).data.players_view()[key as usize];
                let world = old(self).data.worlds_view()[world_id as usize].0;
                &&& id == key as u8
                &&& key <= usize::MAX
                &&& final(self).data.players_view() == old(self).data.players_view().insert(
                    key as usize,
                    p,
                )
                &&& p.shape.turn() == 0
                &&& p.pos == respawn_pos_spec(p.shape, &world)
                &&& p.shadow_pos is None
                &&& p.shapes_lookahead is None
                &&& p.world == world_id
                &&& p.points == 0
                &&& p.settings == settings
            },
    {
        match worlds_get(&self.data.worlds, world_id as usize) {
            Some(entry) => {
                let new_id = players_len(&self.data.players);
                let kind = Shape::rand(self.rngs.player_get_mut(world_id, new_id as PlayerId));
                let player = spawn_player(world_id, settings, kind, &entry.0);
                players_insert(&mut self.data.players, new_id, player);
                proof {
                    assert forall|id: usize|
                        #![trigger self.data.players_view().contains_key(id)]
                        self.data.players_view().contains_key(id) implies game_player_ok(
                        self.data.players_view()[id],
                    ) by {
                        if id != new_id {
                            assert(old(self).data.players_view().contains_key(id));
                        }
                    }
                }
                Some(new_id as PlayerId)
            },
            None => None,
        }
    }

    /// One step of gravity for the player under the id, in its world: it moves one row down,
    /// or its shape is imprinted with a cell that remembers the shape and it respawns; when
    /// it cannot respawn, its world pauses. Returns `None` (changing nothing) when there is no
    /// such player or its world does not exist.
    pub fn gravity(&mut self, id: usize) -> (r: Option<GravityOutcome>)
        requires
            players_ok(&old(self).data),
        ensures
            players_ok(&final(self).data),
            final(self).rngs.entries().dom() == old(self).rngs.entries().dom(),
            r is Some <==> {
                &&& old(self).data.players_view().contains_key(id)
                &&& old(self).data.worlds_view().contains_key(
                    old(self).data.players_view()[id].world as usize,
                )
            },
            r is None ==> {
                &&& final(self).data.players_view() == old(self).data.players_view()
                &&& final(self).data.worlds_view() == old(self).data.worlds_view()
                &&& final(self).rngs == old(self).rngs
            },
            r is Some ==> old(self).rngs.changed_at_lookup(
                &final(self).rngs,
                old(self).data.players_view()[id].world,
                id as PlayerId,
            ),
            r matches Some(GravityOutcome::Moved { .. }) ==> {
                &&& final(self).rngs.entries() == old(self).rngs.entries()
                &&& final(self).rngs.global_data() == old(self).rngs.global_data()
            },
            r matches Some(o) ==> {
                let p = old(self).data.players_view()[id];
                let p2 = final(self).data.players_view()[id];
                let wid = p.world as usize;
                let w = old(self).data.worlds_view()[wid];
                let w2 = final(self).data.worlds_view()[wid];
                &&& final(self).data.players_view() == old(self).data.players_view().insert(id, p2)
                &&& final(self).data.worlds_view() == old(self).data.worlds_view().insert(wid, w2)
                &&& gravity_effect(&w.0, &w2.0, p, p2, ShapeCell(Some(p.shape.kind())), o)
                &&& p2.world == p.world
                &&& p2.points == p.points
                &&& p2.settings == p.settings
                &&& w2.1 == (w.1 || (o matches GravityOutcome::Imprinted { respawned, .. }
                    && !respawned))
            },
    {
        match players_get_mut(&mut self.data.players, id) {
            Some(player) => {
                let world_id = player.world;
                match worlds_get_mut(&mut self.data.worlds, world_id as usize) {
                    Some(entry) => {
                        assert(old(self).data.players_view().contains_key(id));
                        let cell = ShapeCell(Some(player.shape.shape()));
                        let rng = self.rngs.player_get_mut(world_id, id as PlayerId);
                        let outcome = gravity_step(player, &mut entry.0, cell, rng);
                        match outcome {
                            GravityOutcome::Imprinted { respawned, .. } => {
                                if !respawned {
                                    entry.1 = true;
                                }
                            },
                            GravityOutcome::Moved { .. } => {},
                        }
                        proof {
                            assert forall|k: usize|
                                #![trigger self.data.players_view().contains_key(k)]
                                self.data.players_view().contains_key(k) implies game_player_ok(
                                self.data.players_view()[k],
                            ) by {
                                if k != id {
                                    assert(old(self).data.players_view().contains_key(k));
                                }
                            }
                        }
                        Some(outcome)
                    },
                    None => None,
                }
            },
            None => None,
        }
    }

    /// Resets the specified world: clears it and lets it run, and respawns each of its
    /// players, in ascending order of their ids, with its next shape (a shape drawn by its
    /// generator is queued). Returns, for each of them, its id, new shape and position.
    /// Nothing changes when the world does not exist.
    pub fn reset_world(&mut self, world_id: WorldId) -> (r: Vec<(usize, Shape, Pos)>)
        requires
            players_ok(&old(self).data),
        ensures
            players_ok(&final(self).data),
            final(self).data.players_view().dom() == old(self).data.players_view().dom(),
            final(self).rngs.entries().dom() == old(self).rngs.entries().dom(),
            forall|q: crate::game::data::mappings::Key|
                #![trigger final(self).rngs.entries()[q]]
                old(self).rngs.entries().contains_key(q) && !reaches(
                    old(self).data.players_view(),
                    &old(self).rngs,
                    world_id,
                    Some(q),
                ) ==> final(self).rngs.entries()[q] == old(self).rngs.entries()[q],
            final(self).rngs.global_data() != old(self).rngs.global_data() ==> reaches(
                old(self).data.players_view(),
                &old(self).rngs,
                world_id,
                None,
            ),
            !old(self).data.worlds_view().contains_key(world_id as usize) ==> {
                &&& final(self).data.players_view() == old(self).data.players_view()
                &&& final(self).data.worlds_view() == old(self).data.worlds_view()
                &&& r@.len() == 0
            },
            old(self).data.worlds_view().contains_key(world_id as usize) ==> {
                let w2 = final(self).data.worlds_view()[world_id as usize].0;
                &&& final(self).data.worlds_view() == old(self).data.worlds_view().insert(
                    world_id as usize,
                    (w2, false),
                )
                &&& rows_view(&w2) == Seq::new(20, |y: int| empty_row::<ShapeCell>(10))
                &&& forall|id: usize|
                    #![trigger final(self).data.players_view()[id]]
                    old(self).data.players_view().contains_key(id) ==> {
                        let p = old(self).data.players_view()[id];
                        let p2 = final(self).data.players_view()[id];
                        &&& p.world != world_id ==> p2 == p
                        &&& p.world == world_id ==> reset_effect(p, p2, &w2)
                    }
                &&& forall|i: int, j: int| 0 <= i < j < r@.len() ==> r@[i].0 < r@[j].0
                &&& forall|i: int|
                    #![trigger r@[i]]
                    0 <= i < r@.len() ==> {
                        let p2 = final(self).data.players_view()[r@[i].0];
                        &&& final(self).data.players_view().contains_key(r@[i].0)
                        &&& p2.world == world_id
                        &&& r@[i].1 == p2.shape.kind()
                        &&& r@[i].2 == p2.pos
                    }
                &&& forall|id: usize|
                    #![trigger old(self).data.players_view()[id]]
                    old(self).data.players_view().contains_key(id)
                        && old(self).data.players_view()[id].world == world_id ==> exists|i: int|
                        0 <= i < r@.len() && #[trigger] r@[i].0 == id
            },
    {
        let mut respawns: Vec<(usize, Shape, Pos)> = Vec::new();
        match worlds_get_mut(&mut self.data.worlds, world_id as usize) {
            Some(entry) => {
                entry.0.clear();
                entry.1 = false;
            },
            None => {
                return respawns;
            },
        }
        let ghost players0 = self.data.players_view();
        let ghost worlds1 = self.data.worlds_view();
        let world = match worlds_get(&self.data.worlds, world_id as usize) {
            Some(entry) => &entry.0,
            None => {
                return respawns;
            },
        };
        let keys = players_keys(&self.data.players);
        let mut k: usize = 0;
        while k < keys.len()
            invariant
                players0 == old(self).data.players_view(),
                worlds1 == self.data.worlds_view(),
                *world == worlds1[world_id as usize].0,
                forall|i: int, j: int| 0 <= i < j < keys@.len() ==> keys@[i] < keys@[j],
                forall|q: usize|
                    #![trigger players0.contains_key(q)]
                    players0.contains_key(q) <==> keys@.contains(q),
                k <= keys@.len(),
                self.data.players_view().dom() == players0.dom(),
                self.rngs.entries().dom() == old(self).rngs.entries().dom(),
                forall|q: crate::game::data::mappings::Key|
                    #![trigger self.rngs.entries()[q]]
                    old(self).rngs.entries().contains_key(q) && !(exists|i: int|
                        #![trigger keys@[i]]
                        0 <= i < k && players0[keys@[i]].world == world_id
                            && old(self).rngs.lookup_key(world_id, keys@[i] as PlayerId) == Some(q))
                        ==> self.rngs.entries()[q] == old(self).rngs.entries()[q],
                self.rngs.global_data() != old(self).rngs.global_data() ==> exists|i: int|
                    #![trigger keys@[i]]
                    0 <= i < k && players0[keys@[i]].world == world_id
                        && old(self).rngs.lookup_key(world_id, keys@[i] as PlayerId) is None,
                forall|id: usize|
                    #![trigger self.data.players_view()[id]]
                    players0.contains_key(id) ==> {
                        let p = players0[id];
                        let p2 = self.data.players_view()[id];
                        &&& game_player_ok(p)
                        &&& game_player_ok(p2)
                        &&& (p.world != world_id || !keys@.subrange(0, k as int).contains(id))
                            ==> p2 == p
                        &&& (p.world == world_id && keys@.subrange(0, k as int).contains(id))
                            ==> reset_effect(p, p2, world)
                    },
                forall|i: int, j: int| 0 <= i < j < respawns@.len() ==> respawns@[i].0 < respawns@[j].0,
                forall|i: int|
                    #![trigger respawns@[i]]
                    0 <= i < respawns@.len() ==> {
                        let p2 = self.data.players_view()[respawns@[i].0];
                        &&& players0.contains_key(respawns@[i].0)
                        &&& keys@.subrange(0, k as int).contains(respawns@[i].0)
                        &&& p2.world == world_id
                        &&& respawns@[i].1 == p2.shape.kind()
                        &&& respawns@[i].2 == p2.pos
                    },
                forall|id: usize|
                    #![trigger players0[id]]
                    players0.contains_key(id) && players0[id].world == world_id
                        && keys@.subrange(0, k as int).contains(id) ==> exists|i: int|
                        0 <= i < respawns@.len() && #[trigger] respawns@[i].0 == id,
            decreases keys@.len() - k,
        {
            let id = keys[k];
            proof {
                assert(keys@.contains(id));
                assert(players0.contains_key(id));
                assert(forall|q: usize| keys@.subrange(0, k as int).contains(q) ==> q < id) by {
                    assert forall|q: usize| keys@.subrange(0, k as int).contains(q) implies q < id by {
                        let i = choose|i: int| 0 <= i < k && keys@.subrange(0, k as int)[i] == q;
                        assert(keys@[i] == q);
                    }
                }
                assert(keys@.subrange(0, k + 1) =~= keys@.subrange(0, k as int).push(id));
            }
            let ghost before = self.data.players_view();
            let ghost respawns0 = respawns@;
            let ghost rngs0 = self.rngs;
            match players_get_mut(&mut self.data.players, id) {
                Some(player) => {
                    let ghost p_old = *player;
                    if player.world == world_id {
                        let drawn = Shape::rand(self.rngs.player_get_mut(world_id, id as PlayerId));
                        let shape = player.next_shape(drawn);
                        let ghost p_mid = *player;
                        let pos = default_respawn_pos(&player.shape, world);
                        respawn_player(player, world, shape, pos);
                        respawns.push((id, shape, pos));
                        proof {
                            assert(respawns@.last() == (id, shape, pos));
                            match p_old.shapes_lookahead {
                                Some(q) => {
                                    let q2 = p_mid.shapes_lookahead->0;
                                    assert(q2@.drop_first() =~= q@.drop_last());
                                },
                                None => {},
                            }
                            assert(reset_effect(p_old, *player, world));
                            assert(game_player_ok(*player));
                        }
                    }
                },
                None => {},
            }
            proof {
                if players0[id].world == world_id {
                    assert(rngs0.changed_at_lookup(&self.rngs, world_id, id as PlayerId));
                    assert(rngs0.lookup_key(world_id, id as PlayerId) == old(self).rngs.lookup_key(
                        world_id,
                        id as PlayerId,
                    ));
                } else {
                    assert(self.rngs == rngs0);
                }
                assert(keys@[k as int] == id);
                assert forall|q: crate::game::data::mappings::Key|
                    #![trigger self.rngs.entries()[q]]
                    old(self).rngs.entries().contains_key(q) && !(exists|i: int|
                        #![trigger keys@[i]]
                        0 <= i < k + 1 && players0[keys@[i]].world == world_id
                            && old(self).rngs.lookup_key(world_id, keys@[i] as PlayerId) == Some(q))
                        implies self.rngs.entries()[q] == old(self).rngs.entries()[q] by {
                    assert(!(exists|i: int|
                        #![trigger keys@[i]]
                        0 <= i < k && players0[keys@[i]].world == world_id
                            && old(self).rngs.lookup_key(world_id, keys@[i] as PlayerId) == Some(q)));
                    assert(rngs0.entries()[q] == old(self).rngs.entries()[q]);
                }
                if self.rngs.global_data() != old(self).rngs.global_data() {
                    if rngs0.global_data() != old(self).rngs.global_data() {
                        let i = choose|i: int|
                            #![trigger keys@[i]]
                            0 <= i < k && players0[keys@[i]].world == world_id
                                && old(self).rngs.lookup_key(world_id, keys@[i] as PlayerId) is None;
                        assert(0 <= i < k + 1);
                    } else {
                        assert(players0[keys@[k as int]].world == world_id);
                    }
                }
                assert(keys@.subrange(0, k + 1)[k as int] == id);
                assert(keys@.subrange(0, k + 1).contains(id));
                assert forall|x: usize| keys@.subrange(0, k as int).contains(x) implies keys@.subrange(
                    0,
                    k + 1,
                ).contains(x) by {
                    let j = choose|j: int| 0 <= j < k && keys@.subrange(0, k as int)[j] == x;
                    assert(keys@.subrange(0, k + 1)[j] == x);
                }
                assert(self.data.players_view() == before.insert(id, self.data.players_view()[id]));
                assert(players0[id].world == world_id ==> reset_effect(players0[id], self.data.players_view()[id], world));
                assert(players0[id].world != world_id ==> self.data.players_view()[id] == players0[id]);
                let p = players0[id];
                assert forall|q: usize|
                    #![trigger self.data.players_view()[q]]
                    players0.contains_key(q) implies {
                        let pq = players0[q];
                        let p2 = self.data.players_view()[q];
                        &&& game_player_ok(pq)
                        &&& game_player_ok(p2)
                        &&& (pq.world != world_id || !keys@.subrange(0, k + 1).contains(q)) ==> p2 == pq
                        &&& (pq.world == world_id && keys@.subrange(0, k + 1).contains(q))
                            ==> reset_effect(pq, p2, world)
                    } by {
                    if q != id {
                        assert(keys@.subrange(0, k + 1).contains(q) <==> keys@.subrange(0, k as int).contains(q));
                        assert(before[q] == self.data.players_view()[q]);
                        assert((players0[q].world != world_id || !keys@.subrange(0, k as int).contains(q)) ==> before[q] == players0[q]);
                    } else {
                        assert(!keys@.subrange(0, k as int).contains(id));
                        assert(before[id] == p);
                    }
                }
                assert forall|i: int|
                    #![trigger respawns@[i]]
                    0 <= i < respawns@.len() implies {
                        let p2 = self.data.players_view()[respawns@[i].0];
                        &&& players0.contains_key(respawns@[i].0)
                        &&& keys@.subrange(0, k + 1).contains(respawns@[i].0)
                        &&& p2.world == world_id
                        &&& respawns@[i].1 == p2.shape.kind()
                        &&& respawns@[i].2 == p2.pos
                    } by {
                    if i < respawns0.len() {
                        assert(respawns@[i] == respawns0[i]);
                        assert(keys@.subrange(0, k as int).contains(respawns0[i].0));
                        assert(respawns0[i].0 != id);
                    }
                }
                assert forall|q: usize|
                    #![trigger players0[q]]
                    players0.contains_key(q) && players0[q].world == world_id
                        && keys@.subrange(0, k + 1).contains(q) implies exists|i: int|
                        0 <= i < respawns@.len() && #[trigger] respawns@[i].0 == q by {
                    if q == id {
                        assert(respawns@[respawns@.len() - 1].0 == id);
                    } else {
                        assert(keys@.subrange(0, k as int).contains(q));
                        let i = choose|i: int| 0 <= i < respawns0.len() && #[trigger] respawns0[i].0 == q;
                        assert(respawns@[i] == respawns0[i]);
                    }
                }
            }
            k = k + 1;
        }
        proof {
            assert(keys@.subrange(0, k as int) =~= keys@);
            assert forall|q: crate::game::data::mappings::Key|
                #![trigger self.rngs.entries()[q]]
                old(self).rngs.entries().contains_key(q) && !reaches(
                    old(self).data.players_view(),
                    &old(self).rngs,
                    world_id,
                    Some(q),
                ) implies self.rngs.entries()[q] == old(self).rngs.entries()[q] by {
                if exists|i: int|
                    #![trigger keys@[i]]
                    0 <= i < k && players0[keys@[i]].world == world_id
                        && old(self).rngs.lookup_key(world_id, keys@[i] as PlayerId) == Some(q) {
                    let i = choose|i: int|
                        #![trigger keys@[i]]
                        0 <= i < k && players0[keys@[i]].world == world_id
                            && old(self).rngs.lookup_key(world_id, keys@[i] as PlayerId) == Some(q);
                    assert(keys@.contains(keys@[i]));
                    assert(players0.contains_key(keys@[i]));
                }
            }
            if self.rngs.global_data() != old(self).rngs.global_data() {
                let i = choose|i: int|
                    #![trigger keys@[i]]
                    0 <= i < k && players0[keys@[i]].world == world_id
                        && old(self).rngs.lookup_key(world_id, keys@[i] as PlayerId) is None;
                assert(keys@.contains(keys@[i]));
                assert(players0.contains_key(keys@[i]));
            }
            assert forall|id: usize|
                #![trigger self.data.players_view().contains_key(id)]
                self.data.players_view().contains_key(id) implies game_player_ok(
                self.data.players_view()[id],
            ) by {
                assert(players0.contains_key(id));
            }
        }
        respawns
    }

    /// Gives the player under the id the shape, in its initial rotation; returns whether
    /// there is such a player
    pub fn give_shape(&mut self, id: usize, shape: Shape) -> (r: bool)
        requires
            players_ok(&old(self).data),
        ensures
            players_ok(&final(self).data),
            final(self).data.worlds_view() == old(self).data.worlds_view(),
            final(self).rngs == old(self).rngs,
            r == old(self).data.players_view().contains_key(id),
            !r ==> final(self).data.players_view() == old(self).data.players_view(),
            r ==> final(self).data.players_view() == old(self).data.players_view().insert(
                id,
                Player { shape: RotatedShape::with_turn(shape, 0), ..old(self).data.players_view()[id] },
            ),
    {
        match players_get_mut(&mut self.data.players, id) {
            Some(player) => {
                player.shape = RotatedShape::new(shape);
                proof {
                    RotatedShape::lemma_with_turn(shape, 0);
                    assert forall|k: usize|
                        #![trigger self.data.players_view().contains_key(k)]
                        self.data.players_view().contains_key(k) implies game_player_ok(
                        self.data.players_view()[k],
                    ) by {
                        assert(old(self).data.players_view().contains_key(k));
                    }
                }
                true
            },
            None => false,
        }
    }

    /// Moves the player under the id to the top row; returns whether there is such a player
    pub fn move_to_top(&mut self, id: usize) -> (r: bool)
        requires
            players_ok(&old(self).data),
        ensures
            players_ok(&final(self).data),
            final(self).data.worlds_view() == old(self).data.worlds_view(),
            final(self).rngs == old(self).rngs,
            r == old(self).data.players_view().contains_key(id),
            !r ==> final(self).data.players_view() == old(self).data.players_view(),
            r ==> final(self).data.players_view() == old(self).data.players_view().insert(
                id,
                Player {
                    pos: Pos { x: old(self).data.players_view()[id].pos.x, y: 0 },
                    ..old(self).data.players_view()[id]
                },
            ),
    {
        match players_get_mut(&mut self.data.players, id) {
            Some(player) => {
                player.pos.y = 0;
                proof {
                    assert forall|k: usize|
                        #![trigger self.data.players_view().contains_key(k)]
                        self.data.players_view().contains_key(k) implies game_player_ok(
                        self.data.players_view()[k],
                    ) by {
                        assert(old(self).data.players_view().contains_key(k));
                    }
                }
                true
            },
            None => false,
        }
    }

    /// Performs the input on the player under the id when its world exists and runs.
    /// Returns how the player's gravity timer responds, or `None` (changing nothing) when
    /// there is no such player, or its world does not exist or is paused.
    pub fn perform_input(&mut self, id: usize, input: Input) -> (r: Option<TimerAction>)
        requires
            players_ok(&old(self).data),
        ensures
            players_ok(&final(self).data),
            final(self).data.worlds_view() == old(self).data.worlds_view(),
            final(self).rngs == old(self).rngs,
            r is Some <==> {
                let p = old(self).data.players_view()[id];
                &&& old(self).data.players_view().contains_key(id)
                &&& old(self).data.worlds_view().contains_key(p.world as usize)
                &&& !old(self).data.worlds_view()[p.world as usize].1
            },
            r is None ==> final(self).data.players_view() == old(self).data.players_view(),
            r matches Some(t) ==> {
                let p = old(self).data.players_view()[id];
                let p2 = final(self).data.players_view()[id];
                let w = old(self).data.worlds_view()[p.world as usize].0;
                &&& final(self).data.players_view() == old(self).data.players_view().insert(id, p2)
                &&& input_effect(&w, p, p2, input, t)
            },
    {
        match players_get_mut(&mut self.data.players, id) {
            Some(player) => {
                assert(old(self).data.players_view().contains_key(id));
                match worlds_get(&self.data.worlds, player.world as usize) {
                    Some(entry) => {
                        if entry.1 {
                            None
                        } else {
                            let t = perform(input, player, &entry.0);
                            proof {
                                assert forall|k: usize|
                                    #![trigger self.data.players_view().contains_key(k)]
                                    self.data.players_view().contains_key(k) implies game_player_ok(
                                    self.data.players_view()[k],
                                ) by {
                                    if k != id {
                                        assert(old(self).data.players_view().contains_key(k));
                                    }
                                }
                            }
                            Some(t)
                        }
                    },
                    None => None,
                }
            },
            None => None,
        }
    }
}

} // verus!
