use tiled::error::Error;
use tiled::layers::ObjectLayerData;
use tiled::parse::{parse_map_root, parse_tileset_root, Parser, XmlAttribute, XmlEvent};
use tiled::properties::Color;

fn attr(k: &str, v: &str) -> XmlAttribute {
    XmlAttribute { key: k.as_bytes().to_vec(), value: v.as_bytes().to_vec() }
}

fn start(name: &str, attrs: Vec<XmlAttribute>) -> XmlEvent {
    XmlEvent::Start { name: name.as_bytes().to_vec(), attributes: Ok(attrs) }
}

#[test]
fn the_tileset_root_is_found_past_other_markup() {
    let events = vec![
        XmlEvent::Other,
        XmlEvent::Comment,
        XmlEvent::Empty { name: b"tileset".to_vec(), attributes: Ok(vec![]) },
        start("tileset", vec![attr("name", "ground")]),
        XmlEvent::Eof,
    ];
    let mut parser = Parser::with_reader(&events);
    let attrs = parse_tileset_root(&mut parser).unwrap();
    assert_eq!(attrs.len(), 1);
    assert_eq!(attrs[0].value, b"ground".to_vec());
    assert_eq!(parser.pos, 4);
}

#[test]
fn a_document_without_root_ends_prematurely() {
    let events = vec![XmlEvent::Other, XmlEvent::Eof];
    let mut parser = Parser::with_reader(&events);
    match parse_tileset_root(&mut parser) {
        Err(Error::PrematureEnd(m)) => assert_eq!(m, "Tileset Document ended before map was parsed"),
        other => panic!("unexpected {:?}", other),
    }
    let mut parser = Parser::with_reader(&events);
    match parse_map_root(&mut parser) {
        Err(Error::PrematureEnd(m)) => assert_eq!(m, "Document ended before map was parsed"),
        other => panic!("unexpected {:?}", other),
    }
    let events = vec![XmlEvent::Error { message: "oops".to_string() }];
    let mut parser = Parser::with_reader(&events);
    match parse_map_root(&mut parser) {
        Err(Error::XmlDecodingError(m)) => assert_eq!(m, "oops"),
        other => panic!("unexpected {:?}", other),
    }
}

#[test]
fn the_map_root_hands_over_its_attributes() {
    let events = vec![start("map", vec![attr("version", "1.10"), attr("width", "4")])];
    let mut parser = Parser::with_reader(&events);
    let attrs = parse_map_root(&mut parser).unwrap();
    assert_eq!(attrs.len(), 2);
    assert_eq!(attrs[1].key, b"width".to_vec());
}

#[test]
fn object_groups_read_their_colour() {
    assert_eq!(ObjectLayerData::colour_attribute(&vec![attr("name", "x")]).unwrap(), None);
    assert_eq!(
        ObjectLayerData::colour_attribute(&vec![attr("color", "#a0b0c0"), attr("name", "x")]).unwrap(),
        Some(Color { alpha: 0xff, red: 0xa0, green: 0xb0, blue: 0xc0 })
    );
    match ObjectLayerData::colour_attribute(&vec![attr("color", "blue")]) {
        Err(Error::MalformedAttributes(m)) => assert_eq!(m, "Error parsing optional attribute 'color'"),
        other => panic!("unexpected {:?}", other),
    }
    let bad = XmlAttribute { key: b"name".to_vec(), value: vec![0xc3] };
    assert!(matches!(
        ObjectLayerData::colour_attribute(&vec![bad, attr("color", "blue")]),
        Err(Error::XmlDecodingError(_))
    ));
}
