use vstd::prelude::*;

use crate::game::request::Request;
use crate::online::packet::{ConnectionId, Id, Packet, PlayerNetworkId, ProtocolId, ProtocolVersion, WorldNetworkId};

verus! {

/// Type of packet sent from the clients
#[derive(Copy, Clone, Debug, PartialEq)]
pub enum Data {
    Invalid,
    /// Sent when connecting
    Connect { protocol_version: ProtocolVersion },
    /// Sent when a ConnectionEstablished from the server is received with the same id
    ConnectionEstablishedResponse { connection: ConnectionId },
    /// Sent when disconnecting
    Disconnect { connection: ConnectionId },
    /// Sent when something player related is requested to the server
    Request { connection: ConnectionId, request: Request<PlayerNetworkId, WorldNetworkId> },
}

impl Data {
    /// The packet with the id that carries the data
    pub fn into_packet(self, id: Id) -> (r: Packet<Self>)
        ensures
            r == (Packet { protocol: ProtocolId, packet: id, data: self }),
    {
        Packet { protocol: ProtocolId, packet: id, data: self }
    }
}

} // verus!
