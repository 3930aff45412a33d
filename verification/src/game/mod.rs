//! The game: its data, requests and state transitions

pub mod data;
pub mod request;
pub mod state;
