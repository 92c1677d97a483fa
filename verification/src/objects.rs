//! Objects placed on object layers, and the tiles that they may show.

use std::sync::Arc;

use vstd::prelude::*;

use crate::map::{Gid, MapTilesetGid, TiledMap};
use crate::properties::{Color, Properties};
use crate::tile::{Tile, TileId};
use crate::tileset::Tileset;
use crate::util::{get_tileset_for_gid, tileset_index_for_gid};

verus! {

/// Calls `Arc::clone`, which yields another pointer to the same value.
#[verifier::external_body]
fn arc_clone(a: &Arc<Tileset>) -> (r: Arc<Tileset>)
    ensures
        r == *a,
{
    a.clone()
}

/// The location of the tileset this tile is in
///
/// Tilesets can be contained within either a map or a template.
#[derive(Debug, PartialEq)]
pub enum TilesetLocation {
    /// Index into the map's tileset list, guaranteed to be a valid index of the map tileset container.
    MapIndex(usize),
    /// Arc of the tileset itself if and only if this location is from a template.
    Template(Arc<Tileset>),
}

impl Clone for TilesetLocation {
    fn clone(&self) -> (r: Self)
        ensures
            r == *self,
    {
        match self {
            TilesetLocation::MapIndex(n) => TilesetLocation::MapIndex(*n),
            TilesetLocation::Template(t) => TilesetLocation::Template(arc_clone(t)),
        }
    }
}

/// Stores the internal tile gid about a layer tile, along with how it is flipped.
#[derive(Debug, PartialEq)]
pub struct ObjectTileData {
    /// A valid TilesetLocation that points to a tileset that **may or may not contain** this tile.
    pub tileset_location: TilesetLocation,
    /// The local ID of the tile in the tileset it's in.
    pub id: TileId,
    /// Whether this tile is flipped on its Y axis (horizontally).
    pub flip_h: bool,
    /// Whether this tile is flipped on its X axis (vertically).
    pub flip_v: bool,
    /// Whether this tile is flipped diagonally.
    pub flip_d: bool,
}

impl Clone for ObjectTileData {
    fn clone(&self) -> (r: Self)
        ensures
            r == *self,
    {
        ObjectTileData {
            tileset_location: self.tileset_location.clone(),
            id: self.id,
            flip_h: self.flip_h,
            flip_v: self.flip_v,
            flip_d: self.flip_d,
        }
    }
}

/// The bit of a GID that flips its tile horizontally.
pub const FLIPPED_HORIZONTALLY_FLAG: u32 = 0x80000000;

/// The bit of a GID that flips its tile vertically.
pub const FLIPPED_VERTICALLY_FLAG: u32 = 0x40000000;

/// The bit of a GID that flips its tile diagonally.
pub const FLIPPED_DIAGONALLY_FLAG: u32 = 0x20000000;

/// All the flipping bits of a GID.
pub const ALL_FLIP_FLAGS: u32 = 0xE0000000;

/// The tile that the bits of an object's `gid` attribute refer to: the
/// three highest bits say how it is flipped, the others are its GID. GID 0
/// is no tile. For an object of a template, the GID counts from 1 within the
/// template's tileset; otherwise it lies in the last of the map's tilesets
/// whose first GID is at most the GID, and there is no tile if there is no
/// such tileset.
pub open spec fn object_tile_from_bits(
    bits: u32,
    tilesets: Seq<MapTilesetGid>,
    for_tileset: Option<Arc<Tileset>>,
) -> Option<ObjectTileData> {
    let gid = Gid(bits & 0x1FFF_FFFFu32);
    let flip_h = bits & FLIPPED_HORIZONTALLY_FLAG != 0;
    let flip_v = bits & FLIPPED_VERTICALLY_FLAG != 0;
    let flip_d = bits & FLIPPED_DIAGONALLY_FLAG != 0;
    if gid.0 == 0 {
        None
    } else {
        match for_tileset {
            Some(tileset) => Some(
                ObjectTileData {
                    tileset_location: TilesetLocation::Template(tileset),
                    id: (gid.0 - 1) as u32,
                    flip_h,
                    flip_v,
                    flip_d,
                },
            ),
            None => match tileset_index_for_gid(tilesets, gid) {
                Some(i) => Some(
                    ObjectTileData {
                        tileset_location: TilesetLocation::MapIndex(i as usize),
                        id: (gid.0 - tilesets[i].first_gid.0) as u32,
                        flip_h,
                        flip_v,
                        flip_d,
                    },
                ),
                None => None,
            },
        }
    }
}

/// The index that `tileset_index_for_gid` yields lies within the tilesets, at
/// a tileset whose first GID is at most `gid`.
pub proof fn lemma_tileset_index_for_gid(tilesets: Seq<MapTilesetGid>, gid: Gid)
    ensures
        tileset_index_for_gid(tilesets, gid) matches Some(i) ==> 0 <= i < tilesets.len()
            && tilesets[i].first_gid.0 <= gid.0 && forall|j: int|
            i < j < tilesets.len() ==> tilesets[j].first_gid.0 > gid.0,
        tileset_index_for_gid(tilesets, gid) is None ==> forall|j: int|
            0 <= j < tilesets.len() ==> tilesets[j].first_gid.0 > gid.0,
    decreases tilesets.len(),
{
    if tilesets.len() > 0 && !(tilesets.last().first_gid.0 <= gid.0) {
        lemma_tileset_index_for_gid(tilesets.drop_last(), gid);
        assert forall|j: int| 0 <= j < tilesets.len() - 1 implies tilesets[j] == tilesets.drop_last()[j] by {}
    }
}

/// The tile that the bits of a GID refer to in a map lies in a valid
/// tileset of the map: its location is an index into the tilesets, at a
/// tileset whose first GID is at most the GID and after which no tileset
/// starts at or below it, and its local ID is its offset from that first
/// GID. There is no tile exactly when the GID is 0 or lies below every
/// tileset.
pub proof fn lemma_object_tile_in_map(bits: u32, tilesets: Seq<MapTilesetGid>)
    requires
        tilesets.len() <= usize::MAX,
    ensures
        ({
            let gid = bits & 0x1FFF_FFFFu32;
            match object_tile_from_bits(bits, tilesets, None) {
                Some(d) => d.tileset_location matches TilesetLocation::MapIndex(i) && i
                    < tilesets.len() && tilesets[i as int].first_gid.0 <= gid && tilesets[i as int].first_gid.0
                    + d.id == gid && forall|j: int|
                    i < j < tilesets.len() ==> tilesets[j].first_gid.0 > gid,
                None => gid == 0 || forall|j: int|
                    0 <= j < tilesets.len() ==> tilesets[j].first_gid.0 > gid,
            }
        }),
{
    lemma_tileset_index_for_gid(tilesets, Gid(bits & 0x1FFF_FFFFu32));
}

/// The tile of an object of a template is the tile whose local ID in the
/// template's tileset is one less than the GID; there is none for GID 0.
pub proof fn lemma_object_tile_in_template(bits: u32, tilesets: Seq<MapTilesetGid>, tileset: Arc<Tileset>)
    ensures
        ({
            let gid = bits & 0x1FFF_FFFFu32;
            match object_tile_from_bits(bits, tilesets, Some(tileset)) {
                Some(d) => gid != 0 && d.tileset_location == TilesetLocation::Template(tileset)
                    && d.id + 1 == gid,
                None => gid == 0,
            }
        }),
{
}

/// The flipping bits change how a tile is flipped, never which tile it is.
pub proof fn lemma_flip_bits_keep_tile(
    bits: u32,
    tilesets: Seq<MapTilesetGid>,
    for_tileset: Option<Arc<Tileset>>,
)
    ensures
        ({
            let plain = bits & 0x1FFF_FFFFu32;
            match (
                object_tile_from_bits(bits, tilesets, for_tileset),
                object_tile_from_bits(plain, tilesets, for_tileset),
            ) {
                (Some(d), Some(e)) => d.tileset_location == e.tileset_location && d.id == e.id
                    && !e.flip_h && !e.flip_v && !e.flip_d,
                (None, None) => true,
                _ => false,
            }
        }),
{
    let plain = bits & 0x1FFF_FFFFu32;
    assert(plain & 0x1FFF_FFFFu32 == plain) by (bit_vector)
        requires
            plain == bits & 0x1FFF_FFFFu32,
    ;
    assert(plain & 0x8000_0000u32 == 0 && plain & 0x4000_0000u32 == 0 && plain & 0x2000_0000u32
        == 0) by (bit_vector)
        requires
            plain == bits & 0x1FFF_FFFFu32,
    ;
}

/// Each flip flag of a decoded tile is exactly its own bit of the GID:
/// bit 31 flips horizontally, bit 30 vertically, bit 29 diagonally, and no
/// flag depends on another bit.
pub proof fn lemma_flip_flags_from_own_bits(
    bits: u32,
    tilesets: Seq<MapTilesetGid>,
    for_tileset: Option<Arc<Tileset>>,
)
    ensures
        object_tile_from_bits(bits, tilesets, for_tileset) matches Some(d) ==> {
            &&& d.flip_h == (bits & 0x8000_0000u32 != 0)
            &&& d.flip_v == (bits & 0x4000_0000u32 != 0)
            &&& d.flip_d == (bits & 0x2000_0000u32 != 0)
        },
{
}

impl ObjectTileData {
    /// Get the layer tile's local id within its parent tileset.
    pub fn id(&self) -> (r: TileId)
        ensures
            r == self.id,
    {
        self.id
    }

    /// Get a reference to the object tile data's tileset location, which points to a tileset that
    /// **may or may not contain** this tile.
    pub fn tileset_location(&self) -> (r: &TilesetLocation)
        ensures
            *r == self.tileset_location,
    {
        &self.tileset_location
    }

    /// Creates a new [`ObjectTileData`] from a [`Gid`] plus its flipping bits.
    pub fn from_bits(bits: u32, tilesets: &[MapTilesetGid], for_tileset: Option<Arc<Tileset>>) -> (r:
        Option<Self>)
        ensures
            r == object_tile_from_bits(bits, tilesets@, for_tileset),
            r matches Some(d) ==> d.flip_h == (bits & 0x8000_0000u32 != 0) && d.flip_v == (bits
                & 0x4000_0000u32 != 0) && d.flip_d == (bits & 0x2000_0000u32 != 0),
            r is None <==> (bits & 0x1FFF_FFFFu32 == 0 || (for_tileset is None && forall|j: int|
                0 <= j < tilesets@.len() ==> tilesets@[j].first_gid.0 > bits & 0x1FFF_FFFFu32)),
    {
        let flags = bits & ALL_FLIP_FLAGS;
        let gid = Gid(bits & !ALL_FLIP_FLAGS);
        let flip_d = flags & FLIPPED_DIAGONALLY_FLAG == FLIPPED_DIAGONALLY_FLAG;  // Swap x and y axis (anti-diagonally) [flips over y = -x line]
        let flip_h = flags & FLIPPED_HORIZONTALLY_FLAG == FLIPPED_HORIZONTALLY_FLAG;  // Flip tile over y axis
        let flip_v = flags & FLIPPED_VERTICALLY_FLAG == FLIPPED_VERTICALLY_FLAG;  // Flip tile over x axis
        proof {
            assert(bits & !0xE000_0000u32 == bits & 0x1FFF_FFFFu32) by (bit_vector);
            assert(((bits & 0xE000_0000u32) & 0x2000_0000u32 == 0x2000_0000u32) == (bits
                & 0x2000_0000u32 != 0)) by (bit_vector);
            assert(((bits & 0xE000_0000u32) & 0x8000_0000u32 == 0x8000_0000u32) == (bits
                & 0x8000_0000u32 != 0)) by (bit_vector);
            assert(((bits & 0xE000_0000u32) & 0x4000_0000u32 == 0x4000_0000u32) == (bits
                & 0x4000_0000u32 != 0)) by (bit_vector);
        }
        proof {
            lemma_flip_flags_from_own_bits(bits, tilesets@, for_tileset);
            lemma_tileset_index_for_gid(tilesets@, Gid(bits & 0x1FFF_FFFFu32));
        }
        if gid == Gid::empty() {
            None
        } else {
            let (tileset_location, id) = match for_tileset {
                Some(tileset) => (TilesetLocation::Template(tileset), gid.0 - 1),
                None => {
                    proof {
                        lemma_tileset_index_for_gid(tilesets@, gid);
                    }
                    let (tileset_index, tileset) = match get_tileset_for_gid(tilesets, gid) {
                        Some(found) => found,
                        None => {
                            return None;
                        },
                    };
                    let id = gid.0 - tileset.first_gid.0;
                    (TilesetLocation::MapIndex(tileset_index), id)
                },
            };
            Some(Self { tileset_location, id, flip_h, flip_v, flip_d })
        }
    }
}

/// An instance of a [`Tile`] present in an [`Object`].
#[derive(Debug, Clone, Copy)]
pub struct ObjectTile<'map> {
    pub map: &'map TiledMap,
    pub data: &'map ObjectTileData,
}

impl<'map> ObjectTile<'map> {
    pub fn new(map: &'map TiledMap, data: &'map ObjectTileData) -> (r: Self)
        ensures
            r.map == map,
            r.data == data,
    {
        Self { map, data }
    }

    /// Get the map this object is from.
    pub fn map(&self) -> (r: &'map TiledMap)
        ensures
            r == self.map,
    {
        self.map
    }

    /// The tileset that the location of this tile points to.
    pub open spec fn tileset_spec(self) -> Tileset {
        match self.data.tileset_location {
            TilesetLocation::MapIndex(n) => *self.map.tilesets@[n as int],
            TilesetLocation::Template(t) => *t,
        }
    }

    /// Get a reference to the object tile's referenced tile, if it exists.
    pub fn get_tile(&self) -> (r: Option<Tile<'map>>)
        requires
            self.data.tileset_location matches TilesetLocation::MapIndex(n) ==> n < self.map.tilesets@.len(),
        ensures
            match r {
                Some(t) => self.tileset_spec().tiles.entries().contains_key(self.data.id)
                    && *t.tileset == self.tileset_spec() && *t.data
                    == self.tileset_spec().tiles.entries()[self.data.id],
                None => !self.tileset_spec().tiles.entries().contains_key(self.data.id),
            },
            r matches Some(t) ==> t.tileset.tiles.entries().contains_key(self.data.id) && *t.data
                == t.tileset.tiles.entries()[self.data.id],
            r matches Some(t) ==> match self.data.tileset_location {
                TilesetLocation::MapIndex(n) => *t.tileset == *self.map.tilesets@[n as int],
                TilesetLocation::Template(tt) => *t.tileset == *tt,
            },
            r is None ==> match self.data.tileset_location {
                TilesetLocation::MapIndex(n) => !self.map.tilesets@[n as int].tiles.entries().contains_key(
                    self.data.id,
                ),
                TilesetLocation::Template(tt) => !tt.tiles.entries().contains_key(self.data.id),
            },
    {
        self.get_tileset().get_tile(self.data.id)
    }

    /// Get a reference to the object tile's referenced tileset.
    pub fn get_tileset(&self) -> (r: &'map Tileset)
        requires
            self.data.tileset_location matches TilesetLocation::MapIndex(n) ==> n < self.map.tilesets@.len(),
        ensures
            *r == self.tileset_spec(),
            self.data.tileset_location matches TilesetLocation::MapIndex(n) ==> *r
                == *self.map.tilesets@[n as int],
            self.data.tileset_location matches TilesetLocation::Template(t) ==> *r == *t,
    {
        match &self.data.tileset_location {
            TilesetLocation::MapIndex(n) => &self.map.tilesets()[*n],
            TilesetLocation::Template(t) => t,
        }
    }
}

/// The tileset of an object's tile is the one its location names: the
/// map's tileset at the stored index, or the template's own tileset.
pub proof fn lemma_object_tile_tileset(tile: ObjectTile)
    ensures
        tile.data.tileset_location matches TilesetLocation::MapIndex(n) ==> tile.tileset_spec()
            == *tile.map.tilesets@[n as int],
        tile.data.tileset_location matches TilesetLocation::Template(t) ==> tile.tileset_spec()
            == *t,
{
}

impl<'map> core::ops::Deref for ObjectTile<'map> {
    type Target = ObjectTileData;

    fn deref(&self) -> (r: &ObjectTileData)
        ensures
            *r == *self.data,
    {
        self.data
    }
}

/// A structure describing an [`Object`]'s shape. Lengths and coordinates are
/// the bits of `f32` values.
#[derive(Debug, PartialEq, Clone)]
pub enum ObjectShape {
    Rect { width: u32, height: u32 },
    Ellipse { width: u32, height: u32 },
    Polyline { points: Vec<(u32, u32)> },
    Polygon { points: Vec<(u32, u32)> },
    Point(u32, u32),
    Text {
        font_family: String,
        pixel_size: usize,
        wrap: bool,
        color: Color,
        bold: bool,
        italic: bool,
        underline: bool,
        strikeout: bool,
        kerning: bool,
        halign: HorizontalAlignment,
        valign: VerticalAlignment,
        /// The actual text content of this object.
        text: String,
        width: u32,
        height: u32,
    },
}

/// The horizontal alignment of an [`ObjectShape::Text`].
#[derive(Debug, PartialEq, Eq, Clone, Copy, Structural)]
pub enum HorizontalAlignment {
    Left,
    Center,
    Right,
    Justify,
}

impl Default for HorizontalAlignment {
    fn default() -> (r: Self)
        ensures
            r == HorizontalAlignment::Left,
    {
        HorizontalAlignment::Left
    }
}

/// The vertical alignment of an [`ObjectShape::Text`].
#[derive(Debug, PartialEq, Eq, Clone, Copy, Structural)]
pub enum VerticalAlignment {
    Top,
    Center,
    Bottom,
}

impl Default for VerticalAlignment {
    fn default() -> (r: Self)
        ensures
            r == VerticalAlignment::Top,
    {
        VerticalAlignment::Top
    }
}

/// Raw data belonging to an object. Used internally and for tile collisions.
#[derive(Debug, PartialEq, Clone)]
pub struct ObjectData {
    pub id: u32,
    pub tile: Option<ObjectTileData>,
    /// The name of the object, which is arbitrary and set by the user.
    pub name: String,
    /// The type of the object, which is arbitrary and set by the user.
    pub user_type: String,
    /// The X coordinate of this object in pixels, as the bits of an `f32`.
    pub x: u32,
    /// The Y coordinate of this object in pixels, as the bits of an `f32`.
    pub y: u32,
    /// The clockwise rotation of this object around (x,y) in degrees, as the
    /// bits of an `f32`.
    pub rotation: u32,
    /// Whether the object is shown or hidden.
    pub visible: bool,
    /// The object's shape.
    pub shape: ObjectShape,
    /// The object's custom properties as set by the user.
    pub properties: Properties,
}

impl ObjectData {
    /// ID of the object, which is unique per map since Tiled 0.11.
    ///
    /// On older versions this value is defaulted to 0.
    pub fn id(&self) -> (r: u32)
        ensures
            r == self.id,
    {
        self.id
    }

    /// Returns the data of the tile that this object is referencing, if it exists.
    pub fn tile_data(&self) -> (r: Option<ObjectTileData>)
        ensures
            r == self.tile,
    {
        match &self.tile {
            Some(t) => Some(t.clone()),
            None => None,
        }
    }
}

/// Wrapper over an [`ObjectData`] that contains both a reference to the data as well as
/// to the map it is contained in.
#[derive(Debug, Clone, Copy)]
pub struct Object<'map> {
    pub map: &'map TiledMap,
    pub data: &'map ObjectData,
}

impl<'map> Object<'map> {
    pub fn new(map: &'map TiledMap, data: &'map ObjectData) -> (r: Self)
        ensures
            r.map == map,
            r.data == data,
    {
        Self { map, data }
    }

    /// Get the map this object is from.
    pub fn map(&self) -> (r: &'map TiledMap)
        ensures
            r == self.map,
    {
        self.map
    }

    /// Returns the tile that the object is using as image, if any.
    pub fn get_tile(&self) -> (r: Option<ObjectTile<'map>>)
        ensures
            match r {
                Some(t) => self.data.tile matches Some(d) && t.map == self.map && *t.data == d,
                None => self.data.tile is None,
            },
    {
        match &self.data.tile {
            Some(tile) => Some(ObjectTile::new(self.map, tile)),
            None => None,
        }
    }
}

impl<'map> core::ops::Deref for Object<'map> {
    type Target = ObjectData;

    fn deref(&self) -> (r: &ObjectData)
        ensures
            *r == *self.data,
    {
        self.data
    }
}

} // verus!
