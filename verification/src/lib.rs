//! A tile-grid platformer world: the map text, the grid it describes, the
//! player that walks it and the rectangles that draw both.

pub mod block;
pub mod color;
pub mod game;
pub mod input;
pub mod map;
pub mod player;
pub mod playground;
pub mod render;
