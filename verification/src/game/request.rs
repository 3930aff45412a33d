use vstd::prelude::*;

use crate::game::data::player::Settings;
use crate::game::data::Input;

verus! {

/// An ingame request sent to perform certain tasks.
/// Some examples of this in use is when a client sends a request to a server or when some
/// input is being received from a controller.
#[derive(Copy, Clone, Debug, PartialEq)]
pub enum Request<P, W> {
    /// The player performs the input
    PlayerInput { player: P, input: Input },
    /// A player with the settings is added to the world
    PlayerAdd { settings: Settings, world: W },
    /// The player is removed
    PlayerRemove { player: P },
    /// The world is removed
    WorldRemove { world: W },
    /// The world is cleared and its players respawned
    WorldRestart { world: W },
    /// The world stops updating
    WorldPause { world: W },
    /// The world updates again
    WorldUnpause { world: W },
    /// Every world restarts
    GameRestart,
    /// The game ends
    GameQuit,
}

} // verus!
