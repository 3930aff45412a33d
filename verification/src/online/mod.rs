//! Online network connection related data: what the packets carry, how they are checked, and
//! what the client and the server decide on the packets they receive

pub mod client;
pub mod packet;
pub mod server;
