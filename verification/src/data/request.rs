//! Requests to the game

pub use crate::game::request::Request;
