//! Data model and parsing logic for Tiled maps: layers, objects, tiles,
//! properties and Wang sets, with the decisions taken while reading a
//! document stated and proved.

pub mod animation;
pub mod documents;
pub mod error;
pub mod image;
pub mod layers;
pub mod map;
pub mod objects;
pub mod parse;
pub mod properties;
pub mod template;
pub mod text;
pub mod tile;
pub mod tileset;
pub mod util;
