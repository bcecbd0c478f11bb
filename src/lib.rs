//! Rules engine for a tile-laying board game: the grid geometry, tiles and
//! their features, the board, regions of connected features and when they
//! can be scored, and the players' pools of markers.

pub mod board;
pub mod error;
pub mod extension;
pub mod feature;
pub mod geometry;
pub mod object;
pub mod player;
pub mod region;
pub mod segment;
pub mod tile;
pub mod tiledata;
pub mod tilepic;
pub mod token;
