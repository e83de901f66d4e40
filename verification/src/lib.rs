//! Replays a game's random sequence and reads its saved state.

pub mod luabins;
pub mod reader;
pub mod rng;
pub mod save;
pub mod state;
pub mod text;
pub mod truncation;
