use std::sync::Arc;

use tiled::layers::{
    GroupLayerData, ImageLayerData, Layer, LayerData, LayerDataType, ObjectLayerData, TileLayerData,
};
use tiled::map::{Gid, MapTilesetGid, TiledMap};
use tiled::objects::{
    HorizontalAlignment, Object, ObjectData, ObjectShape, ObjectTile, ObjectTileData,
    TilesetLocation, VerticalAlignment,
};
use tiled::properties::{Color, Properties};
use tiled::tile::TileData;
use tiled::tileset::{TileMap, Tileset};
use tiled::util::get_tileset_for_gid;

fn tileset(name: &str, tile_ids: &[u32]) -> Tileset {
    let mut tiles = TileMap::new();
    for id in tile_ids {
        tiles.insert(
            *id,
            TileData {
                image: None,
                properties: Properties::new(),
                collision: None,
                animation: None,
                user_type: Some(format!("tile{}", id)),
                probability: 0,
            },
        );
    }
    Tileset {
        name: name.to_string(),
        tile_width: 16,
        tile_height: 16,
        tilecount: 100,
        columns: 10,
        tiles,
        properties: Properties::new(),
    }
}

fn map_tilesets(first_gids: &[u32]) -> Vec<MapTilesetGid> {
    first_gids
        .iter()
        .map(|g| MapTilesetGid { first_gid: Gid(*g), tileset: Arc::new(tileset(&format!("ts{}", g), &[])) })
        .collect()
}

fn object(id: u32, tile: Option<ObjectTileData>) -> ObjectData {
    ObjectData {
        id,
        tile,
        name: format!("o{}", id),
        user_type: String::new(),
        x: 0,
        y: 0,
        rotation: 0,
        visible: true,
        shape: ObjectShape::Point(0, 0),
        properties: Properties::new(),
    }
}

fn layer(id: u32, layer_type: LayerDataType) -> LayerData {
    LayerData {
        name: format!("layer{}", id),
        id,
        visible: true,
        offset_x: 0,
        offset_y: 0,
        parallax_x: 0,
        parallax_y: 0,
        opacity: 0,
        tint_color: None,
        properties: Properties::new(),
        user_type: None,
        layer_type,
    }
}

#[test]
fn the_tileset_of_a_gid_is_the_last_starting_at_or_below_it() {
    let ts = map_tilesets(&[1, 10, 20]);
    assert_eq!(get_tileset_for_gid(&ts, Gid(15)).map(|(i, t)| (i, t.first_gid)), Some((1, Gid(10))));
    assert_eq!(get_tileset_for_gid(&ts, Gid(20)).map(|(i, _)| i), Some(2));
    assert_eq!(get_tileset_for_gid(&ts, Gid(1)).map(|(i, _)| i), Some(0));
    assert!(get_tileset_for_gid(&ts, Gid(0)).is_none());
    assert!(get_tileset_for_gid(&[], Gid(5)).is_none());
}

#[test]
fn object_tiles_are_found_from_their_gid_bits() {
    let ts = map_tilesets(&[1, 10, 20]);
    let d = ObjectTileData::from_bits(15, &ts, None).unwrap();
    assert_eq!(d.tileset_location(), &TilesetLocation::MapIndex(1));
    assert_eq!(d.id(), 5);
    assert!(!d.flip_h && !d.flip_v && !d.flip_d);

    let d = ObjectTileData::from_bits(0x8000_0000 | 0x2000_0000 | 1, &ts, None).unwrap();
    assert_eq!(d.tileset_location(), &TilesetLocation::MapIndex(0));
    assert_eq!(d.id(), 0);
    assert!(d.flip_h && !d.flip_v && d.flip_d);

    let d = ObjectTileData::from_bits(0x4000_0000 | 25, &ts, None).unwrap();
    assert_eq!(d.tileset_location(), &TilesetLocation::MapIndex(2));
    assert_eq!(d.id(), 5);
    assert!(d.flip_v);

    assert!(ObjectTileData::from_bits(0, &ts, None).is_none());
    assert!(ObjectTileData::from_bits(0xE000_0000, &ts, None).is_none());
    assert!(ObjectTileData::from_bits(3, &map_tilesets(&[5]), None).is_none());

    let template = Arc::new(tileset("template", &[]));
    let d = ObjectTileData::from_bits(7, &ts, Some(template.clone())).unwrap();
    assert_eq!(d.id(), 6);
    assert_eq!(d.tileset_location(), &TilesetLocation::Template(template));
}

#[test]
fn flipping_bits_do_not_change_the_tile() {
    let ts = map_tilesets(&[1, 10]);
    for gid in [1u32, 9, 10, 11, 1000] {
        let plain = ObjectTileData::from_bits(gid, &ts, None).unwrap();
        let flipped = ObjectTileData::from_bits(gid | 0xE000_0000, &ts, None).unwrap();
        assert_eq!(plain.tileset_location(), flipped.tileset_location());
        assert_eq!(plain.id(), flipped.id());
        assert!(flipped.flip_h && flipped.flip_v && flipped.flip_d);
    }
}

#[test]
fn objects_lead_to_their_tiles_and_tilesets() {
    let map_tileset = Arc::new(tileset("main", &[2, 4]));
    let mts = vec![MapTilesetGid { first_gid: Gid(1), tileset: map_tileset.clone() }];
    let tile_data = ObjectTileData::from_bits(3, &mts, None).unwrap();
    let untiled = ObjectTileData::from_bits(4, &mts, None).unwrap();
    let objects = ObjectLayerData {
        objects: vec![object(1, Some(tile_data)), object(2, None), object(3, Some(untiled))],
        colour: None,
    };
    let map = TiledMap {
        width: 1,
        height: 1,
        tile_width: 16,
        tile_height: 16,
        tilesets: vec![map_tileset],
        layers: vec![layer(7, LayerDataType::Objects(objects))],
        properties: Properties::new(),
    };
    let l = Layer::new(&map, &map.layers[0]);
    assert_eq!(l.id(), 7);
    let ol = l.as_object_layer().unwrap();
    assert_eq!(ol.object_data().len(), 3);
    let all = ol.objects();
    assert_eq!(all.len(), 3);
    for (i, o) in all.iter().enumerate() {
        assert_eq!(o.id(), ol.get_object(i).unwrap().id());
    }
    assert!(ol.get_object(3).is_none());

    let o: Object = ol.get_object(0).unwrap();
    assert_eq!(o.tile_data().map(|t| t.id()), Some(2));
    let t: ObjectTile = o.get_tile().unwrap();
    assert_eq!(t.get_tileset().name, "main");
    assert_eq!(t.get_tile().unwrap().user_type, Some("tile2".to_string()));
    assert_eq!(t.get_tile().unwrap().tileset().name, "main");

    assert!(ol.get_object(1).unwrap().get_tile().is_none());
    let t3 = ol.get_object(2).unwrap().get_tile().unwrap();
    assert_eq!(t3.id(), 3);
    assert!(t3.get_tile().is_none());
}

#[test]
fn layers_are_seen_through_their_kind() {
    let inner = vec![
        layer(2, LayerDataType::Tiles(TileLayerData { width: 2, height: 1, tiles: vec![1, 0] })),
        layer(3, LayerDataType::Image(ImageLayerData { image: None })),
    ];
    let map = TiledMap {
        width: 2,
        height: 1,
        tile_width: 8,
        tile_height: 8,
        tilesets: vec![],
        layers: vec![layer(1, LayerDataType::Group(GroupLayerData { layers: inner }))],
        properties: Properties::new(),
    };
    let group_layer = Layer::new(&map, &map.layers[0]);
    assert!(group_layer.as_tile_layer().is_none());
    assert!(group_layer.as_object_layer().is_none());
    assert!(group_layer.as_image_layer().is_none());
    let g = group_layer.as_group_layer().unwrap();
    let children = g.layers();
    assert_eq!(children.len(), 2);
    assert_eq!(children[0].id(), 2);
    assert_eq!(g.get_layer(1).unwrap().id(), 3);
    assert!(g.get_layer(2).is_none());
    let tiles = children[0].as_tile_layer().unwrap();
    assert_eq!(tiles.width, 2);
    assert!(children[1].as_image_layer().unwrap().image.is_none());
    assert!(std::ptr::eq(children[1].map(), &map));
}

#[test]
fn alignments_default_to_left_and_top() {
    assert_eq!(HorizontalAlignment::default(), HorizontalAlignment::Left);
    assert_eq!(VerticalAlignment::default(), VerticalAlignment::Top);
    let _ = Color { alpha: 0, red: 0, green: 0, blue: 0 };
}
