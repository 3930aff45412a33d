use vstd::prelude::*;

verus! {

/// All the possible inputs a player can input
#[derive(Copy, Clone, Debug, PartialEq, Eq, Structural)]
pub enum Input {
    /// Moves the player to the left
    MoveLeft,
    /// Moves the player to the right
    MoveRight,
    /// Moves the player down towards the ground
    SlowFall,
    /// Moves the player down all the way to the ground
    FastFall,
    /// Rotates the player clockwise
    RotateClockwise,
    /// Rotates the player anti-clockwise
    RotateAntiClockwise,
    /// Pauses the game
    Pause,
}

} // verus!
