//! What controls a player: the decisions of the computer players

pub mod ai;
