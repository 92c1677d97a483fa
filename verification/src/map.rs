//! Maps, and the global tile IDs that tie their tiles to their tilesets.

use std::sync::Arc;

use vstd::prelude::*;

use crate::layers::LayerData;
use crate::properties::Properties;
use crate::tileset::Tileset;

verus! {

/// A global tile ID: an index that runs over the tiles of all the tilesets of
/// a map, each tileset starting at its first GID. Zero means "no tile".
#[derive(Debug, PartialEq, Eq, Clone, Copy, Structural)]
pub struct Gid(pub u32);

impl Gid {
    /// The GID of an empty tile.
    pub fn empty() -> (r: Gid)
        ensures
            r.0 == 0,
    {
        Gid(0)
    }
}

/// A tileset of a map, with the first GID that it covers.
#[derive(Debug)]
pub struct MapTilesetGid {
    pub first_gid: Gid,
    pub tileset: Arc<Tileset>,
}

/// A Tiled map: its tilesets and layers.
#[derive(Debug)]
pub struct TiledMap {
    /// The width of the map, in tiles.
    pub width: u32,
    /// The height of the map, in tiles.
    pub height: u32,
    /// Tile width, in pixels.
    pub tile_width: u32,
    /// Tile height, in pixels.
    pub tile_height: u32,
    /// The tilesets present on this map.
    pub tilesets: Vec<Arc<Tileset>>,
    /// The layers of this map, in display order.
    pub layers: Vec<LayerData>,
    /// The custom properties of this map.
    pub properties: Properties,
}

impl TiledMap {
    /// The tilesets present on this map.
    pub fn tilesets(&self) -> (r: &[Arc<Tileset>])
        ensures
            r@ == self.tilesets@,
    {
        self.tilesets.as_slice()
    }
}

} // verus!
