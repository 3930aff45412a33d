//! Data handling modules

pub mod cell;
pub mod grid;
pub mod shapes;
pub mod pair_map;
pub mod request;
pub mod world;
