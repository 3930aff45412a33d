//! What the server decides on the packets from the clients

pub mod packet;

use vstd::prelude::*;

use crate::game::data::player::Settings;
use crate::game::data::Input;
use crate::game::request::Request;
use crate::online::client::packet::Data as ClientData;
use crate::online::packet::ProtocolVersion;

verus! {

/// The version of the protocol that the server speaks
pub const PROTOCOL_VERSION: ProtocolVersion = 1;

/// What the server does with a packet from a client
#[derive(Copy, Clone, Debug, PartialEq, Eq, Structural)]
pub enum ServerAction {
    /// The connection is accepted: the server answers with a new connection id
    Establish,
    /// The connection is refused for its protocol version: the server answers so
    Refuse { version: ProtocolVersion },
    /// The input is performed on the local player
    PerformInput { input: Input },
    /// A player with the settings is added, and the server answers so
    AddPlayer { settings: Settings },
    /// The packet is only reported
    Report,
}

/// What the server does with a packet from a client: a connection of the server's protocol
/// version is accepted and one of another version refused; requested inputs and new players
/// are performed; the rest is reported
pub fn server_action(data: ClientData) -> (r: ServerAction)
    ensures
        r == (match data {
            ClientData::Connect { protocol_version } => if protocol_version == PROTOCOL_VERSION {
                ServerAction::Establish
            } else {
                ServerAction::Refuse { version: protocol_version }
            },
            ClientData::Request { request: Request::PlayerInput { input, .. }, .. } => ServerAction::PerformInput { input },
            ClientData::Request { request: Request::PlayerAdd { settings, .. }, .. } => ServerAction::AddPlayer { settings },
            _ => ServerAction::Report,
        }),
{
    match data {
        ClientData::Connect { protocol_version } => {
            if protocol_version == PROTOCOL_VERSION {
                ServerAction::Establish
            } else {
                ServerAction::Refuse { version: protocol_version }
            }
        },
        ClientData::Request { request: Request::PlayerInput { input, .. }, .. } => ServerAction::PerformInput { input },
        ClientData::Request { request: Request::PlayerAdd { settings, .. }, .. } => ServerAction::AddPlayer { settings },
        _ => ServerAction::Report,
    }
}

} // verus!
