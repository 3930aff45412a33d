use vstd::prelude::*;

use crate::cli::same_text;

verus! {

/// Identifies a packet
pub type Id = u16;

/// Version of the network protocol
pub type ProtocolVersion = u16;

/// Identifies a connection
pub type ConnectionId = u32;

/// Identifies a player over the network
pub type PlayerNetworkId = u32;

/// Identifies a world over the network
pub type WorldNetworkId = u32;

/// A packet: the protocol's identification, the packet's id and what it carries
#[derive(Copy, Clone, Debug, PartialEq)]
pub struct Packet<Data> {
    pub protocol: ProtocolId,
    pub packet: Id,
    pub data: Data,
}

/// The protocol's identification that every packet carries: the text `TETR`
#[derive(Copy, Clone, Debug, PartialEq, Eq, Structural)]
pub struct ProtocolId;

/// A packet that does not carry the protocol's identification
#[derive(Copy, Clone, Debug, PartialEq, Eq, Structural)]
pub struct ProtocolIdError;

impl ProtocolIdError {
    /// What the error says
    pub fn message(self) -> (r: &'static str)
        ensures
            r@ == "Expected `TETR` as the protocol id"@,
    {
        "Expected `TETR` as the protocol id"
    }
}

impl ProtocolId {
    /// The text that identifies the protocol
    pub fn text(self) -> (r: &'static str)
        ensures
            r@ == "TETR"@,
    {
        "TETR"
    }

    /// Accepts exactly the text `TETR`
    pub fn from_text(text: &str) -> (r: Result<ProtocolId, ProtocolIdError>)
        ensures
            r is Ok <==> text@ == "TETR"@,
    {
        if same_text(text, "TETR") {
            Ok(ProtocolId)
        } else {
            Err(ProtocolIdError)
        }
    }

    /// Accepts exactly the bytes of the text `TETR`
    pub fn from_bytes(bytes: &[u8]) -> (r: Result<ProtocolId, ProtocolIdError>)
        ensures
            r is Ok <==> bytes@ == seq![84u8, 69u8, 84u8, 82u8],
    {
        if bytes.len() == 4 && bytes[0] == 84 && bytes[1] == 69 && bytes[2] == 84 && bytes[3] == 82 {
            proof {
                assert(bytes@ =~= seq![84u8, 69u8, 84u8, 82u8]);
            }
            Ok(ProtocolId)
        } else {
            proof {
                if bytes@ == seq![84u8, 69u8, 84u8, 82u8] {
                    assert(bytes@[0] == 84u8);
                }
            }
            Err(ProtocolIdError)
        }
    }
}

} // verus!
