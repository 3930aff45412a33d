//! Input code

use vstd::prelude::*;

use crate::data::grid::Pos;
use crate::data::shapes::tetrimino::{turn_anticlockwise, turn_clockwise, RotatedShape, Shape};
use crate::data::world::{shape_pos_fits, World};
use crate::game::data::{Input, Player};
use crate::game::state::{
    collides, fastfallen_pos, fastfallen_shape_pos, law_fastfall_lands, law_resolved_shape_fits,
    lemma_fits_in_range, move_effect, move_player, pos_in_range, resolve_effect,
    resolve_transformed_player, shift_fits,
};
use crate::data::world::lemma_intersection_fits;

verus! {

/// How the gravity timer of the player responds to an input
#[derive(Copy, Clone, Debug, PartialEq, Eq, Structural)]
pub enum TimerAction {
    /// The timer goes on as it is
    Keep,
    /// The timer restarts a full gravity period
    Reset,
    /// The timer is set to zero, so that the player moves in the next update step
    Zero,
}

/// The effect of the input on the player in the world, with how the gravity timer responds
pub open spec fn input_effect<W: World>(world: &W, old: Player, new: Player, input: Input, r: TimerAction) -> bool {
    match input {
        Input::MoveLeft => r == TimerAction::Keep && exists|moved: bool|
            #[trigger] move_effect(world, old, new, Pos { x: -1i16, y: 0i16 }, moved),
        Input::MoveRight => r == TimerAction::Keep && exists|moved: bool|
            #[trigger] move_effect(world, old, new, Pos { x: 1i16, y: 0i16 }, moved),
        Input::SlowFall => r != TimerAction::Keep && move_effect(
            world,
            old,
            new,
            Pos { x: 0i16, y: 1i16 },
            r == TimerAction::Reset,
        ),
        Input::FastFall => {
            &&& r == TimerAction::Zero
            &&& new.pos == fastfallen_pos(world, old.shape, old.pos)
            &&& new.shadow_pos == old.shadow_pos
            &&& new.shape == old.shape
            &&& new.shapes_lookahead == old.shapes_lookahead
            &&& new.world == old.world
            &&& new.points == old.points
            &&& new.settings == old.settings
        },
        Input::RotateAntiClockwise => r == TimerAction::Keep && exists|resolved: bool|
            #[trigger] resolve_effect(
                world,
                old,
                new,
                RotatedShape::with_turn(
                    old.shape.kind(),
                    turn_anticlockwise(old.shape.kind(), old.shape.turn()),
                ),
                resolved,
            ),
        Input::RotateClockwise => r == TimerAction::Keep && exists|resolved: bool|
            #[trigger] resolve_effect(
                world,
                old,
                new,
                RotatedShape::with_turn(
                    old.shape.kind(),
                    turn_clockwise(old.shape.kind(), old.shape.turn()),
                ),
                resolved,
            ),
        Input::Pause => r == TimerAction::Keep && new == old,
    }
}

/// The position arithmetic of the input on the player stays in range: a move computes the
/// moved position, a rotation the positions it tries the rotated shape at (up to its width
/// minus one columns to either side), and a fast fall starts above the world's last row
pub open spec fn input_fits<W: World>(world: &W, player: Player, input: Input) -> bool {
    let w = player.shape.kind().size_spec().x as int;
    match input {
        Input::MoveLeft => shift_fits(player.pos, -1, 0),
        Input::MoveRight => shift_fits(player.pos, 1, 0),
        Input::SlowFall => shift_fits(player.pos, 0, 1),
        Input::FastFall => shape_pos_fits(player.pos) && player.pos.y < world.height_spec(),
        Input::RotateAntiClockwise => shift_fits(player.pos, 1 - w, 0) && shift_fits(
            player.pos,
            w - 1,
            0,
        ),
        Input::RotateClockwise => shift_fits(player.pos, 1 - w, 0) && shift_fits(
            player.pos,
            w - 1,
            0,
        ),
        Input::Pause => true,
    }
}

/// A position where the shape's box meets the world leaves every input's arithmetic in range
pub proof fn lemma_in_range_fits<W: World>(world: &W, player: Player, input: Input)
    requires
        pos_in_range(world, player.pos),
    ensures
        input_fits(world, player, input),
{
    world.lemma_bounds();
}

/// An input never brings a player's shape onto imprinted cells or out of the world: a player
/// that does not collide before the input does not collide after it
pub proof fn law_input_keeps_player_clear<W: World>(
    world: &W,
    old: Player,
    new: Player,
    input: Input,
    r: TimerAction,
)
    requires
        old.shape.turn() < old.shape.kind().rotation_count_spec(),
        shape_pos_fits(old.pos),
        !collides(world, old.shape, old.pos),
        input_effect(world, old, new, input, r),
    ensures
        !collides(world, new.shape, new.pos),
{
    lemma_intersection_fits(world, old.shape, old.pos, 0, 0);
    lemma_fits_in_range(world, old.shape, old.pos);
    match input {
        Input::MoveLeft => {
            let moved = choose|moved: bool|
                #[trigger] move_effect(world, old, new, Pos { x: -1i16, y: 0i16 }, moved);
            assert(move_effect(world, old, new, Pos { x: -1i16, y: 0i16 }, moved));
        },
        Input::MoveRight => {
            let moved = choose|moved: bool|
                #[trigger] move_effect(world, old, new, Pos { x: 1i16, y: 0i16 }, moved);
            assert(move_effect(world, old, new, Pos { x: 1i16, y: 0i16 }, moved));
        },
        Input::SlowFall => {},
        Input::FastFall => {
            law_fastfall_lands(world, old.shape, old.pos);
        },
        Input::RotateAntiClockwise => {
            let shape = RotatedShape::with_turn(
                old.shape.kind(),
                turn_anticlockwise(old.shape.kind(), old.shape.turn()),
            );
            let resolved = choose|resolved: bool|
                #[trigger] resolve_effect(world, old, new, shape, resolved);
            law_resolved_shape_fits(world, old, new, shape, resolved);
        },
        Input::RotateClockwise => {
            let shape = RotatedShape::with_turn(
                old.shape.kind(),
                turn_clockwise(old.shape.kind(), old.shape.turn()),
            );
            let resolved = choose|resolved: bool|
                #[trigger] resolve_effect(world, old, new, shape, resolved);
            law_resolved_shape_fits(world, old, new, shape, resolved);
        },
        Input::Pause => {},
    }
}

/// Performs an action based on the given input on a player in a world
pub fn perform<W>(input: Input, player: &mut Player, world: &W) -> (r: TimerAction) where W: World
    requires
        input_fits(world, *old(player), input),
    ensures
        pos_in_range(world, old(player).pos) ==> pos_in_range(world, final(player).pos),
        final(player).shapes_lookahead == old(player).shapes_lookahead,
        final(player).world == old(player).world,
        input_effect(world, *old(player), *final(player), input, r),
{
    match input {
        Input::MoveLeft => {
            move_player(player, world, Pos { x: -1, y: 0 });
            TimerAction::Keep
        },
        Input::MoveRight => {
            move_player(player, world, Pos { x: 1, y: 0 });
            TimerAction::Keep
        },
        Input::SlowFall => {
            if move_player(player, world, Pos { x: 0, y: 1 }) {
                TimerAction::Reset
            } else {
                TimerAction::Zero
            }
        },
        Input::FastFall => {
            player.pos = fastfallen_shape_pos(&player.shape, world, player.pos);
            TimerAction::Zero
        },
        Input::RotateAntiClockwise => {
            let shape = player.shape.rotated_anticlockwise();
            resolve_transformed_player(player, shape, world);
            TimerAction::Keep
        },
        Input::RotateClockwise => {
            let shape = player.shape.rotated_clockwise();
            resolve_transformed_player(player, shape, world);
            TimerAction::Keep
        },
        Input::Pause => TimerAction::Keep,
    }
}

/// The keys that the game reacts to itself, besides the key bindings of the players
#[derive(Copy, Clone, Debug, PartialEq, Eq, Structural)]
pub enum GameKey {
    Return,
    D1,
    D2,
    D3,
    D4,
    D5,
    D6,
    D7,
    R,
    Home,
    /// Any other key
    Other,
}

/// What a pressed key does
#[derive(Copy, Clone, Debug, PartialEq, Eq, Structural)]
pub enum KeyCommand {
    /// The game goes on
    Unpause,
    /// The game pauses
    Pause,
    /// The first player gets the shape, in its initial rotation
    GiveShape(Shape),
    /// The first player's world restarts
    RestartWorld,
    /// The first player moves to the top row
    MoveToTop,
    /// The key's binding, if any, sends its input
    Binding,
    /// Nothing happens
    Ignore,
}

/// What a pressed key does: while paused, only Return does anything (it unpauses); else
/// Return pauses, the digit keys 1 to 7 give the first player the shapes I, L, O, J, T, S and
/// Z, R restarts its world, Home moves it to the top, and any other key goes to the bindings
pub fn key_command(paused: bool, key: GameKey) -> (r: KeyCommand)
    ensures
        paused ==> r == (if key == GameKey::Return {
            KeyCommand::Unpause
        } else {
            KeyCommand::Ignore
        }),
        !paused ==> r == (match key {
            GameKey::Return => KeyCommand::Pause,
            GameKey::D1 => KeyCommand::GiveShape(Shape::I),
            GameKey::D2 => KeyCommand::GiveShape(Shape::L),
            GameKey::D3 => KeyCommand::GiveShape(Shape::O),
            GameKey::D4 => KeyCommand::GiveShape(Shape::J),
            GameKey::D5 => KeyCommand::GiveShape(Shape::T),
            GameKey::D6 => KeyCommand::GiveShape(Shape::S),
            GameKey::D7 => KeyCommand::GiveShape(Shape::Z),
            GameKey::R => KeyCommand::RestartWorld,
            GameKey::Home => KeyCommand::MoveToTop,
            GameKey::Other => KeyCommand::Binding,
        }),
{
    if paused {
        match key {
            GameKey::Return => KeyCommand::Unpause,
            _ => KeyCommand::Ignore,
        }
    } else {
        match key {
            GameKey::Return => KeyCommand::Pause,
            GameKey::D1 => KeyCommand::GiveShape(Shape::I),
            GameKey::D2 => KeyCommand::GiveShape(Shape::L),
            GameKey::D3 => KeyCommand::GiveShape(Shape::O),
            GameKey::D4 => KeyCommand::GiveShape(Shape::J),
            GameKey::D5 => KeyCommand::GiveShape(Shape::T),
            GameKey::D6 => KeyCommand::GiveShape(Shape::S),
            GameKey::D7 => KeyCommand::GiveShape(Shape::Z),
            GameKey::R => KeyCommand::RestartWorld,
            GameKey::Home => KeyCommand::MoveToTop,
            GameKey::Other => KeyCommand::Binding,
        }
    }
}

} // verus!
