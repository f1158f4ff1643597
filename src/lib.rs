//! Rules engine and session coordinator of a turn-based tactics game played
//! on a field of hexagons.

pub mod point;
pub mod unit;
pub mod hex;
pub mod grid;
pub mod hexmap;
pub mod reach;
pub mod dice;
pub mod game;
pub mod play;
pub mod tally;
pub mod api;
pub mod session;
pub mod config;
