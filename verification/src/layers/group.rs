use vstd::prelude::*;

use crate::layers::{Layer, LayerData};
use crate::map::TiledMap;

verus! {

/// The raw data of a [`GroupLayer`]. Does not include a reference to its parent [`TiledMap`](crate::map::TiledMap).
#[derive(Debug, PartialEq)]
pub struct GroupLayerData {
    pub layers: Vec<LayerData>,
}

/// A group layer, used to organize the layers of the map in a hierarchy.
///
/// In Tiled, the properties of the group layer recursively affect child
/// layers. Implementing this behavior is left up to the user of this library.
#[derive(Debug, Clone, Copy)]
pub struct GroupLayer<'map> {
    pub map: &'map TiledMap,
    pub data: &'map GroupLayerData,
}

impl<'map> GroupLayer<'map> {
    pub fn new(map: &'map TiledMap, data: &'map GroupLayerData) -> (r: Self)
        ensures
            r.map == map,
            r.data == data,
    {
        Self { map, data }
    }

    /// Get the map this object is from.
    pub fn map(&self) -> (r: &'map TiledMap)
        ensures
            r == self.map,
    {
        self.map
    }

    /// Returns the layers present in this group in display order.
    pub fn layers(&self) -> (r: Vec<Layer<'map>>)
        ensures
            r@.len() == self.data.layers@.len(),
            forall|i: int|
                0 <= i < r@.len() ==> #[trigger] r@[i].map == self.map && *r@[i].data
                    == self.data.layers@[i],
    {
        let map: &'map TiledMap = self.map;
        let layers = &self.data.layers;
        let mut r: Vec<Layer<'map>> = Vec::new();
        let mut i: usize = 0;
        while i < layers.len()
            invariant
                i <= layers@.len(),
                layers == &self.data.layers,
                map == self.map,
                r@.len() == i,
                forall|j: int|
                    0 <= j < i ==> #[trigger] r@[j].map == self.map && *r@[j].data == layers@[j],
            decreases layers@.len() - i,
        {
            r.push(Layer::new(map, &layers[i]));
            i = i + 1;
        }
        r
    }

    /// Gets a specific layer from the group by index.
    pub fn get_layer(&self, index: usize) -> (r: Option<Layer<'map>>)
        ensures
            match r {
                Some(l) => index < self.data.layers@.len() && l.map == self.map && *l.data
                    == self.data.layers@[index as int],
                None => index >= self.data.layers@.len(),
            },
    {
        if index < self.data.layers.len() {
            Some(Layer::new(self.map, &self.data.layers[index]))
        } else {
            None
        }
    }
}

impl<'map> core::ops::Deref for GroupLayer<'map> {
    type Target = GroupLayerData;

    fn deref(&self) -> (r: &GroupLayerData)
        ensures
            *r == *self.data,
    {
        self.data
    }
}

} // verus!
