//! A layered tile map, its binary form, and the viewport that maps screen
//! positions onto its cells.

pub mod codec;
pub mod editor;
pub mod renderer;
pub mod tilemap;
