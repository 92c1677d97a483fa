//! Tilesets: the tiles they hold, looked up by their local IDs.

use vstd::prelude::*;

use crate::properties::Properties;
use crate::tile::{Tile, TileData, TileId};

pub mod wangset;

verus! {

/// The tiles of a tileset that carry data, by local ID.
#[verifier::external_body]
#[derive(Debug, PartialEq)]
pub struct TileMap {
    map: hashbrown::HashMap<TileId, TileData>,
}

/// The entries of a tile map.
pub uninterp spec fn tile_entries(m: TileMap) -> Map<TileId, TileData>;

/// Makes an empty map with `hashbrown::HashMap::new`, which holds no entries.
#[verifier::external_body]
fn tile_map_new() -> (r: TileMap)
    ensures
        tile_entries(r).dom().is_empty(),
{
    TileMap { map: hashbrown::HashMap::new() }
}

/// Calls `hashbrown::HashMap::insert`, which maps `id` to `data`, replacing
/// any data that `id` had, and leaves every other entry as it was.
#[verifier::external_body]
fn tile_map_insert(m: &mut TileMap, id: TileId, data: TileData)
    ensures
        final(m).entries() == old(m).entries().insert(id, data),
{
    m.map.insert(id, data);
}

/// Calls `hashbrown::HashMap::get`, which returns the data mapped to `id`, if
/// there is any.
#[verifier::external_body]
fn tile_map_get<'a>(m: &'a TileMap, id: TileId) -> (r: Option<&'a TileData>)
    ensures
        match r {
            Some(d) => tile_entries(*m).contains_key(id) && *d == tile_entries(*m)[id],
            None => !tile_entries(*m).contains_key(id),
        },
{
    m.map.get(&id)
}

impl TileMap {
    /// The entries of this map.
    pub open spec fn entries(self) -> Map<TileId, TileData> {
        tile_entries(self)
    }

    /// An empty map.
    pub fn new() -> (r: TileMap)
        ensures
            r.entries().dom().is_empty(),
    {
        tile_map_new()
    }

    /// Sets the data of the tile `id`.
    pub fn insert(&mut self, id: TileId, data: TileData)
        ensures
            final(self).entries() == old(self).entries().insert(id, data),
    {
        tile_map_insert(self, id, data)
    }

    /// The data of the tile `id`, if it has any.
    pub fn get(&self, id: TileId) -> (r: Option<&TileData>)
        ensures
            match r {
                Some(d) => self.entries().contains_key(id) && *d == self.entries()[id],
                None => !self.entries().contains_key(id),
            },
    {
        tile_map_get(self, id)
    }
}

/// A collection of tiles for usage in maps and template objects.
#[derive(Debug, PartialEq)]
pub struct Tileset {
    /// The name of the tileset, set by the user.
    pub name: String,
    /// The (maximum) width in pixels of the tiles in this tileset.
    pub tile_width: u32,
    /// The (maximum) height in pixels of the tiles in this tileset.
    pub tile_height: u32,
    /// The number of tiles in this tileset.
    pub tilecount: u32,
    /// The number of tile columns in the tileset.
    pub columns: u32,
    /// The tiles that carry data, by local ID.
    pub tiles: TileMap,
    /// The custom properties of the tileset.
    pub properties: Properties,
}

impl Tileset {
    /// Gets the tile with the specified ID from the tileset, if it carries
    /// any data.
    pub fn get_tile(&self, id: TileId) -> (r: Option<Tile>)
        ensures
            match r {
                Some(t) => self.tiles.entries().contains_key(id) && t.tileset == self && *t.data
                    == self.tiles.entries()[id],
                None => !self.tiles.entries().contains_key(id),
            },
    {
        match self.tiles.get(id) {
            Some(data) => Some(Tile::new(self, data)),
            None => None,
        }
    }
}

} // verus!
