//! Data related to players

use std::collections::VecDeque;

use vstd::prelude::*;

use crate::data::grid::Pos;
use crate::data::shapes::tetrimino::{RotatedShape, Shape};
use crate::game::data::WorldId;

verus! {

/// Player state data. The gravity timing of a player (seconds, as floating point) is kept
/// by the program that drives the game loop.
#[derive(Clone, Debug, PartialEq)]
pub struct Player {
    pub pos: Pos,
    pub shadow_pos: Option<Pos>,
    /// The queued shapes: the most recently queued first, the next one to come last
    pub shapes_lookahead: Option<VecDeque<Shape>>,
    pub shape: RotatedShape,
    pub world: WorldId,
    pub points: u32,
    pub settings: Settings,
}

/// Player settings (besides the gravity period, which is floating point)
#[derive(Copy, Clone, Debug, PartialEq, Eq, Structural)]
pub struct Settings {
    pub fastfall_shadow: bool,
}

/// The lookahead queue is never empty
pub open spec fn lookahead_ok(player: &Player) -> bool {
    player.shapes_lookahead matches Some(q) ==> q@.len() > 0
}

impl Player {
    /// Returns the next shape from the queue while queuing the given shape.
    /// Without a queue, the given shape is the next one.
    pub fn next_shape(&mut self, queued_shape: Shape) -> (r: Shape)
        requires
            lookahead_ok(old(self)),
        ensures
            lookahead_ok(final(self)),
            final(self).pos == old(self).pos,
            final(self).shadow_pos == old(self).shadow_pos,
            final(self).shape == old(self).shape,
            final(self).world == old(self).world,
            final(self).points == old(self).points,
            final(self).settings == old(self).settings,
            match old(self).shapes_lookahead {
                None => r == queued_shape && final(self).shapes_lookahead is None,
                Some(q) => {
                    &&& r == q@.last()
                    &&& final(self).shapes_lookahead matches Some(q2)
                    &&& q2@ == seq![queued_shape] + q@.drop_last()
                },
            },
    {
        match &mut self.shapes_lookahead {
            Some(shapes_lookahead) => {
                shapes_lookahead.push_front(queued_shape);
                match shapes_lookahead.pop_back() {
                    Some(shape) => shape,
                    None => queued_shape,
                }
            },
            None => queued_shape,
        }
    }
}

} // verus!
