//! Tiles of a tileset.

use vstd::prelude::*;

use crate::animation::Frame;
use crate::image::Image;
use crate::layers::ObjectLayerData;
use crate::properties::Properties;
use crate::tileset::Tileset;

verus! {

/// A tile ID, local to a tileset.
pub type TileId = u32;

/// Raw data belonging to a tile.
#[derive(Debug, PartialEq, Clone, Default)]
pub struct TileData {
    /// The image of the tile. Only set when the tile is part of an "image collection" tileset.
    pub image: Option<Image>,
    /// The custom properties of this tile.
    pub properties: Properties,
    /// The collision shapes of this tile.
    pub collision: Option<ObjectLayerData>,
    /// The animation frames of this tile.
    pub animation: Option<Vec<Frame>>,
    /// The type of this tile.
    pub user_type: Option<String>,
    /// The probability of this tile, as the bits of an `f32`.
    pub probability: u32,
}

/// Points to a tile belonging to a tileset.
#[derive(Debug)]
pub struct Tile<'tileset> {
    pub tileset: &'tileset Tileset,
    pub data: &'tileset TileData,
}

impl<'tileset> Tile<'tileset> {
    pub fn new(tileset: &'tileset Tileset, data: &'tileset TileData) -> (r: Self)
        ensures
            r.tileset == tileset,
            r.data == data,
    {
        Self { tileset, data }
    }

    /// Get the tileset this tile is from.
    pub fn tileset(&self) -> (r: &'tileset Tileset)
        ensures
            r == self.tileset,
    {
        self.tileset
    }

    /// The data of this tile.
    pub fn data(&self) -> (r: &'tileset TileData)
        ensures
            r == self.data,
    {
        self.data
    }
}

impl<'tileset> core::ops::Deref for Tile<'tileset> {
    type Target = TileData;

    fn deref(&self) -> (r: &TileData)
        ensures
            *r == *self.data,
    {
        self.data
    }
}

} // verus!
