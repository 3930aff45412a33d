//! Computer players

pub mod bruteforce;
pub mod fill_one;
