//! Map layers: tile, object, image and group layers.

use vstd::prelude::*;

use crate::map::TiledMap;
use crate::properties::{Color, Properties};

pub mod group;
pub mod image;
pub mod object;
pub mod tile;

pub use group::{GroupLayer, GroupLayerData};
pub use image::{ImageLayer, ImageLayerData};
pub use object::{ObjectLayer, ObjectLayerData};
pub use tile::{TileLayer, TileLayerData};

verus! {

/// The data of a layer that depends on its kind.
#[derive(Debug, PartialEq)]
pub enum LayerDataType {
    Tiles(TileLayerData),
    Objects(ObjectLayerData),
    Image(ImageLayerData),
    Group(GroupLayerData),
}

/// The kind of a layer.
#[derive(Debug, PartialEq, Eq, Clone, Copy, Structural)]
pub enum LayerTag {
    Tiles,
    Objects,
    Image,
    Group,
}

/// The raw data of a [`Layer`]. Does not include a reference to its parent [`TiledMap`](crate::map::TiledMap).
/// Offsets, parallax factors and opacity are the bits of `f32` values.
#[derive(Debug, PartialEq)]
pub struct LayerData {
    /// The layer's name, set arbitrarily by the user.
    pub name: String,
    pub id: u32,
    /// Whether this layer should be visible or not.
    pub visible: bool,
    /// The layer's x offset (in pixels).
    pub offset_x: u32,
    /// The layer's y offset (in pixels).
    pub offset_y: u32,
    /// The layer's x parallax factor.
    pub parallax_x: u32,
    /// The layer's y parallax factor.
    pub parallax_y: u32,
    /// The layer's opacity.
    pub opacity: u32,
    /// The layer's tint color.
    pub tint_color: Option<Color>,
    /// The layer's custom properties, as arbitrarily set by the user.
    pub properties: Properties,
    /// The layer's type, which is arbitrarily setby the user.
    pub user_type: Option<String>,
    pub layer_type: LayerDataType,
}

impl LayerData {
    /// Get the layer's id. Unique within the parent map. Valid only if greater than 0. Defaults to
    /// 0 if the layer was loaded from a file that didn't have the attribute present.
    pub fn id(&self) -> (r: u32)
        ensures
            r == self.id,
    {
        self.id
    }
}

/// A generic map layer, one of the layers of a [`TiledMap`](crate::map::TiledMap).
#[derive(Debug, Clone, Copy)]
pub struct Layer<'map> {
    pub map: &'map TiledMap,
    pub data: &'map LayerData,
}

/// Represents some kind of map layer.
#[derive(Debug)]
pub enum LayerType<'map> {
    /// A tile layer; Also see [`TileLayer`].
    Tiles(TileLayer<'map>),
    /// An object layer (also called object group); Also see [`ObjectLayer`].
    Objects(ObjectLayer<'map>),
    /// An image layer; Also see [`ImageLayer`].
    Image(ImageLayer<'map>),
    /// A group layer; Also see [`GroupLayer`].
    Group(GroupLayer<'map>),
}

/// The typed view of a layer of `map` whose kind-dependent data is `data`.
pub open spec fn layer_type_of<'map>(map: &'map TiledMap, data: &'map LayerDataType) -> LayerType<'map> {
    match data {
        LayerDataType::Tiles(d) => LayerType::Tiles(TileLayer { map, data: d }),
        LayerDataType::Objects(d) => LayerType::Objects(ObjectLayer { map, data: d }),
        LayerDataType::Image(d) => LayerType::Image(ImageLayer { map, data: d }),
        LayerDataType::Group(d) => LayerType::Group(GroupLayer { map, data: d }),
    }
}

/// A layer is seen through the kind of its data: tile data as a tile layer,
/// objects as an object layer, an image as an image layer and a group as a
/// group layer, each over the same map and that same data.
pub proof fn lemma_layer_type_follows_data<'map>(map: &'map TiledMap, data: &'map LayerDataType)
    ensures
        match (layer_type_of(map, data), data) {
            (LayerType::Tiles(l), LayerDataType::Tiles(d)) => l.map == map && l.data == d,
            (LayerType::Objects(l), LayerDataType::Objects(d)) => l.map == map && l.data == d,
            (LayerType::Image(l), LayerDataType::Image(d)) => l.map == map && l.data == d,
            (LayerType::Group(l), LayerDataType::Group(d)) => l.map == map && l.data == d,
            _ => false,
        },
{
}

impl<'map> LayerType<'map> {
    fn new(map: &'map TiledMap, data: &'map LayerDataType) -> (r: Self)
        ensures
            r == layer_type_of(map, data),
    {
        match data {
            LayerDataType::Tiles(data) => Self::Tiles(TileLayer::new(map, data)),
            LayerDataType::Objects(data) => Self::Objects(ObjectLayer::new(map, data)),
            LayerDataType::Image(data) => Self::Image(ImageLayer::new(map, data)),
            LayerDataType::Group(data) => Self::Group(GroupLayer::new(map, data)),
        }
    }
}

impl<'map> Layer<'map> {
    pub fn new(map: &'map TiledMap, data: &'map LayerData) -> (r: Self)
        ensures
            r.map == map,
            r.data == data,
    {
        Self { map, data }
    }

    /// Get the map this object is from.
    pub fn map(&self) -> (r: &'map TiledMap)
        ensures
            r == self.map,
    {
        self.map
    }

    /// Get the layer's type.
    pub fn layer_type(&self) -> (r: LayerType<'map>)
        ensures
            r == layer_type_of(self.map, &self.data.layer_type),
    {
        LayerType::new(self.map, &self.data.layer_type)
    }

    /// Convenience method to return this layer as a tile layer, only if it is one.
    ///
    /// Identical to:
    /// ```ignore
    /// match layer.layer_type() {
    ///     LayerType::Tiles(x) => Some(x),
    ///     _ => None,
    /// }
    /// ```
    pub fn as_tile_layer(self) -> (r: Option<TileLayer<'map>>)
        ensures
            r == match layer_type_of(self.map, &self.data.layer_type) {
                LayerType::Tiles(x) => Some(x),
                _ => None,
            },
    {
        match self.layer_type() {
            LayerType::Tiles(x) => Some(x),
            _ => None,
        }
    }

    /// Convenience method to return this layer as an object group, only if it is one.
    ///
    /// Identical to:
    /// ```ignore
    /// match layer.layer_type() {
    ///     LayerType::Objects(x) => Some(x),
    ///     _ => None,
    /// }
    /// ```
    pub fn as_object_layer(self) -> (r: Option<ObjectLayer<'map>>)
        ensures
            r == match layer_type_of(self.map, &self.data.layer_type) {
                LayerType::Objects(x) => Some(x),
                _ => None,
            },
    {
        match self.layer_type() {
            LayerType::Objects(x) => Some(x),
            _ => None,
        }
    }

    /// Convenience method to return this layer as an image layer, only if it is one.
    ///
    /// Identical to:
    /// ```ignore
    /// match layer.layer_type() {
    ///     LayerType::Image(x) => Some(x),
    ///     _ => None,
    /// }
    /// ```
    pub fn as_image_layer(self) -> (r: Option<ImageLayer<'map>>)
        ensures
            r == match layer_type_of(self.map, &self.data.layer_type) {
                LayerType::Image(x) => Some(x),
                _ => None,
            },
    {
        match self.layer_type() {
            LayerType::Image(x) => Some(x),
            _ => None,
        }
    }

    /// Convenience method to return this layer as a group layer, only if it is one.
    ///
    /// Identical to:
    /// ```ignore
    /// match layer.layer_type() {
    ///     LayerType::Group(x) => Some(x),
    ///     _ => None,
    /// }
    /// ```
    pub fn as_group_layer(self) -> (r: Option<GroupLayer<'map>>)
        ensures
            r == match layer_type_of(self.map, &self.data.layer_type) {
                LayerType::Group(x) => Some(x),
                _ => None,
            },
    {
        match self.layer_type() {
            LayerType::Group(x) => Some(x),
            _ => None,
        }
    }
}

impl<'map> core::ops::Deref for Layer<'map> {
    type Target = LayerData;

    fn deref(&self) -> (r: &LayerData)
        ensures
            *r == *self.data,
    {
        self.data
    }
}

} // verus!
