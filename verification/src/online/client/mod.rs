//! What the client decides: on the packets from the server, and on failed sends

pub mod packet;

use vstd::prelude::*;

use crate::game::data::Input;
use crate::online::packet::ConnectionId;
use crate::online::server::packet::Data as ServerData;

verus! {

/// What the client does with a packet from the server
#[derive(Copy, Clone, Debug, PartialEq, Eq, Structural)]
pub enum ClientAction {
    /// The connection is established with the id: from now on the client is connected, and
    /// it asks the server and the game for a new player
    Establish { connection: ConnectionId },
    /// The input is performed on the local player
    PerformInput { input: Input },
    /// The packet is only reported
    Report,
}

/// What the client does with a packet from the server: an established connection counts
/// while not yet connected, an input once connected; the rest is reported
pub fn client_action(connected: bool, data: ServerData) -> (r: ClientAction)
    ensures
        r == (match data {
            ServerData::ConnectionEstablished { connection } if !connected => ClientAction::Establish {
                connection,
            },
            ServerData::PlayerInput { input, .. } if connected => ClientAction::PerformInput { input },
            _ => ClientAction::Report,
        }),
{
    match data {
        ServerData::ConnectionEstablished { connection } if !connected => ClientAction::Establish {
            connection,
        },
        ServerData::PlayerInput { input, .. } if connected => ClientAction::PerformInput { input },
        _ => ClientAction::Report,
    }
}

/// Why sending a packet failed
#[derive(Copy, Clone, Debug, PartialEq, Eq, Structural)]
pub enum SendError {
    Interrupted,
    TimedOut,
    Other,
}

/// After a failed send with `retries` retries left: the retries left after retrying, or
/// `None` to give up. Interruptions and timeouts are retried while retries are left; other
/// errors are not.
pub fn retry_after(error: SendError, retries: u8) -> (r: Option<u8>)
    ensures
        r == (match error {
            SendError::Interrupted | SendError::TimedOut => if retries > 0 {
                Some((retries - 1) as u8)
            } else {
                None
            },
            SendError::Other => None,
        }),
{
    match error {
        SendError::Interrupted | SendError::TimedOut => retries.checked_sub(1),
        SendError::Other => None,
    }
}

} // verus!
