use vstd::prelude::*;

use crate::map::TiledMap;

verus! {

/// The raw data of a [`TileLayer`]: its size in tiles and the GIDs of its
/// tiles, row by row, with their flipping bits.
#[derive(Debug, PartialEq, Clone)]
pub struct TileLayerData {
    pub width: u32,
    pub height: u32,
    pub tiles: Vec<u32>,
}

/// A layer of tiles.
#[derive(Debug, Clone, Copy)]
pub struct TileLayer<'map> {
    pub map: &'map TiledMap,
    pub data: &'map TileLayerData,
}

impl<'map> TileLayer<'map> {
    pub fn new(map: &'map TiledMap, data: &'map TileLayerData) -> (r: Self)
        ensures
            r.map == map,
            r.data == data,
    {
        Self { map, data }
    }

    /// Get the map this object is from.
    pub fn map(&self) -> (r: &'map TiledMap)
        ensures
            r == self.map,
    {
        self.map
    }
}

impl<'map> core::ops::Deref for TileLayer<'map> {
    type Target = TileLayerData;

    fn deref(&self) -> (r: &TileLayerData)
        ensures
            *r == *self.data,
    {
        self.data
    }
}

} // verus!
