use tiled::error::Error;
use tiled::tileset::wangset::{WangId, WangSetType, WangTile, WangTiles};

#[test]
fn wang_ids_read_eight_values() {
    assert_eq!(WangId::parse_text("[1,2,3,4,5,6,7,8]").unwrap(), WangId([1, 2, 3, 4, 5, 6, 7, 8]));
    assert_eq!("0,0,0,0,0,0,0,255".parse::<WangId>().unwrap(), WangId([0, 0, 0, 0, 0, 0, 0, 255]));
    assert_eq!(WangId::parse_text("[[1,2,3,4,5,6,7,8]]").unwrap(), WangId([1, 2, 3, 4, 5, 6, 7, 8]));
    assert_eq!(WangId::parse_text("[x,300,,3,4,5,6,+7]").unwrap(), WangId([0, 0, 0, 3, 4, 5, 6, 7]));
}

#[test]
fn wang_ids_with_another_count_are_refused() {
    for s in ["[1,2,3]", "", "[]", "[1,2,3,4,5,6,7,8,9]", "1,2,3,4,5,6,7"] {
        match WangId::parse_text(s) {
            Err(Error::InvalidWangIdEncoding { read_string }) => assert_eq!(read_string, s),
            other => panic!("unexpected {:?} for {:?}", other, s),
        }
    }
}

#[test]
fn a_wang_id_written_in_decimal_reads_back() {
    let w = [0u8, 9, 10, 99, 100, 200, 255, 42];
    let text = format!(
        "[{}]",
        w.iter().map(|v| v.to_string()).collect::<Vec<_>>().join(",")
    );
    assert_eq!(WangId::parse_text(&text).unwrap(), WangId(w));
}

#[test]
fn wang_set_type_defaults_to_mixed() {
    assert_eq!(WangSetType::default(), WangSetType::Mixed);
}

#[test]
fn wang_tiles_map_ids_to_tiles() {
    let mut m = WangTiles::new();
    let t = WangTile { wang_id: WangId([1, 0, 1, 0, 1, 0, 1, 0]) };
    m.insert(3, t);
    assert_eq!(m.get(3), Some(&t));
    assert_eq!(m.get(4), None);
}

#[test]
fn wang_tiles_clone_with_their_entries() {
    let mut tiles = WangTiles::new();
    tiles.insert(3, WangTile { wang_id: WangId([1, 2, 3, 4, 5, 6, 7, 8]) });
    let copy = tiles.clone();
    assert_eq!(copy.get(3), Some(&WangTile { wang_id: WangId([1, 2, 3, 4, 5, 6, 7, 8]) }));
    assert_eq!(copy.get(4), None);
}
