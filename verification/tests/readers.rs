use tiled::documents::{parse_map, parse_tileset, read_quick_xml_events, read_xml_rs_events};
use tiled::error::Error;
use tiled::parse::{XmlAttribute, XmlEvent};

fn pairs(attrs: &[XmlAttribute]) -> Vec<(String, String)> {
    attrs
        .iter()
        .map(|a| {
            (String::from_utf8(a.key.clone()).unwrap(), String::from_utf8(a.value.clone()).unwrap())
        })
        .collect()
}

fn owned(v: &[(&str, &str)]) -> Vec<(String, String)> {
    v.iter().map(|(k, v)| (k.to_string(), v.to_string())).collect()
}

#[test]
fn quick_xml_events_follow_the_document() {
    let events = read_quick_xml_events(b"<a x='1'>hi<!--c--><b/></a>");
    assert_eq!(events.len(), 6);
    match &events[0] {
        XmlEvent::Start { name, attributes: Ok(attrs) } => {
            assert_eq!(name, b"a");
            assert_eq!(pairs(attrs), owned(&[("x", "1")]));
        }
        other => panic!("unexpected {:?}", other),
    }
    assert!(matches!(&events[1], XmlEvent::Text { content } if content == b"hi"));
    assert!(matches!(&events[2], XmlEvent::Comment));
    assert!(matches!(&events[3], XmlEvent::Empty { name, .. } if name == b"b"));
    assert!(matches!(&events[4], XmlEvent::End { name } if name == b"a"));
    assert!(matches!(&events[5], XmlEvent::Eof));
}

#[test]
fn quick_xml_attributes_that_cannot_be_read_are_reported() {
    let events = read_quick_xml_events(b"<a x='1' x='2'>");
    assert!(matches!(&events[0], XmlEvent::Start { attributes: Err(_), .. }));
}

#[test]
fn xml_rs_events_follow_the_document() {
    let events = read_xml_rs_events(b"<a p:x='1' xmlns:p='urn:p'>hi</a>");
    assert!(matches!(&events[0], XmlEvent::Other));
    match &events[1] {
        XmlEvent::Start { name, attributes: Ok(attrs) } => {
            assert_eq!(name, b"a");
            assert_eq!(pairs(attrs), owned(&[("x", "1")]));
        }
        other => panic!("unexpected {:?}", other),
    }
    assert!(matches!(&events[2], XmlEvent::Text { content } if content == b"hi"));
    assert!(matches!(&events[3], XmlEvent::End { name } if name == b"a"));
    assert!(matches!(&events[4], XmlEvent::Eof));
    assert_eq!(events.len(), 5);
}

#[test]
fn a_tileset_document_hands_over_its_root_attributes() {
    let doc = b"<?xml version=\"1.0\"?>\n<!-- t -->\n<tileset name=\"ground\" t:tilewidth=\"16\">\n<tile id=\"1\"/>\n</tileset>";
    let attrs = parse_tileset(doc).unwrap();
    assert_eq!(pairs(&attrs), owned(&[("name", "ground"), ("tilewidth", "16")]));
}

#[test]
fn a_tileset_document_without_tileset_ends_prematurely() {
    match parse_tileset(b"<map></map><tileset/>") {
        Err(Error::PrematureEnd(m)) => assert_eq!(m, "Tileset Document ended before map was parsed"),
        other => panic!("unexpected {:?}", other),
    }
}

#[test]
fn a_broken_tileset_document_is_a_decoding_error() {
    assert!(matches!(parse_tileset(b"<a></b><tileset>"), Err(Error::XmlDecodingError(_))));
    assert!(matches!(parse_tileset(b"<tileset a='1' a='2'>"), Err(Error::XmlDecodingError(_))));
}

#[test]
fn a_map_document_hands_over_its_root_attributes() {
    let doc = b"<?xml version=\"1.0\"?>\n<map version=\"1.10\" width=\"3\">\n</map>";
    let attrs = parse_map(doc).unwrap();
    assert_eq!(pairs(&attrs), owned(&[("version", "1.10"), ("width", "3")]));
}

#[test]
fn a_map_document_without_map_ends_prematurely_or_fails() {
    match parse_map(b"<tileset></tileset>") {
        Err(Error::PrematureEnd(m)) => assert_eq!(m, "Document ended before map was parsed"),
        other => panic!("unexpected {:?}", other),
    }
    assert!(matches!(parse_map(b"<a></b>"), Err(Error::XmlDecodingError(_))));
}
