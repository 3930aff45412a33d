use vstd::prelude::*;

use crate::data::shapes::tetrimino::Shape;
use crate::game::data::player::Settings;
use crate::game::data::Input;
use crate::online::packet::{ConnectionId, Id, Packet, PlayerNetworkId, ProtocolId};

verus! {

/// Type of packet sent from the server
#[derive(Copy, Clone, Debug, PartialEq)]
pub enum Data {
    Invalid,
    /// Sent when connecting and the connection is OK
    ConnectionEstablished { connection: ConnectionId },
    /// Sent when connecting and the connection is not OK
    ConnectionInvalid,
    /// Sent when a new player request has been confirmed
    PlayerCreateResponse { player: PlayerNetworkId },
    /// Sent when a new player has been added
    PlayerCreate { player: PlayerNetworkId, settings: Settings },
    /// Sent when a player has been removed
    PlayerRemove { player: PlayerNetworkId },
    /// Sent when a player input command is registered
    PlayerInput { player: PlayerNetworkId, input: Input },
    /// Sent when a player's shape is queued
    PlayerQueueShape { player: PlayerNetworkId, shape: Shape },
}

impl Data {
    /// The packet with the id that carries the data
    pub fn into_packet(self, id: Id) -> (r: Packet<Self>)
        ensures
            r == (Packet { protocol: ProtocolId, packet: id, data: self }),
    {
        Packet { protocol: ProtocolId, packet: id, data: self }
    }
}

} // verus!
