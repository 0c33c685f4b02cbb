//! Logic core of a tile-grid snake game: a deterministic pseudo-random
//! generator, a bounded tile grid that records the tile-map writes it issues,
//! and the game state machine that runs on both.

pub mod arena;
pub mod game;
pub mod num;
pub mod rand;
