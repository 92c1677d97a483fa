use vstd::prelude::*;

use crate::image::Image;
use crate::map::TiledMap;

verus! {

/// The raw data of an [`ImageLayer`]. Does not include a reference to its parent [`TiledMap`](crate::map::TiledMap).
#[derive(Debug, PartialEq, Clone)]
pub struct ImageLayerData {
    /// The single image this layer contains, if it exists.
    pub image: Option<Image>,
}

/// A layer consisting of a single image.
#[derive(Debug, Clone, Copy)]
pub struct ImageLayer<'map> {
    pub map: &'map TiledMap,
    pub data: &'map ImageLayerData,
}

impl<'map> ImageLayer<'map> {
    pub fn new(map: &'map TiledMap, data: &'map ImageLayerData) -> (r: Self)
        ensures
            r.map == map,
            r.data == data,
    {
        Self { map, data }
    }

    /// Get the map this object is from.
    pub fn map(&self) -> (r: &'map TiledMap)
        ensures
            r == self.map,
    {
        self.map
    }
}

impl<'map> core::ops::Deref for ImageLayer<'map> {
    type Target = ImageLayerData;

    fn deref(&self) -> (r: &ImageLayerData)
        ensures
            *r == *self.data,
    {
        self.data
    }
}

} // verus!
