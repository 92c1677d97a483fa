use tiled::error::Error;
use tiled::layers::ObjectLayerData;
use tiled::parse::{Parser, XmlAttribute, XmlEvent};
use tiled::properties::{Properties, PropertyValue};

fn attrs(pairs: &[(&str, &str)]) -> Vec<XmlAttribute> {
    pairs
        .iter()
        .map(|(k, v)| XmlAttribute { key: k.as_bytes().to_vec(), value: v.as_bytes().to_vec() })
        .collect()
}

fn empty(name: &str, pairs: &[(&str, &str)]) -> XmlEvent {
    XmlEvent::Empty { name: name.as_bytes().to_vec(), attributes: Ok(attrs(pairs)) }
}

fn start(name: &str, pairs: &[(&str, &str)]) -> XmlEvent {
    XmlEvent::Start { name: name.as_bytes().to_vec(), attributes: Ok(attrs(pairs)) }
}

fn end(name: &str) -> XmlEvent {
    XmlEvent::End { name: name.as_bytes().to_vec() }
}

fn keys(a: &[XmlAttribute]) -> Vec<(Vec<u8>, Vec<u8>)> {
    a.iter().map(|x| (x.key.clone(), x.value.clone())).collect()
}

#[test]
fn object_layer_children_lead_to_objects_and_properties() {
    let events = vec![
        XmlEvent::Text { content: b"\n  ".to_vec() },
        start("properties", &[]),
        empty("property", &[("name", "kind"), ("value", "spawn")]),
        end("properties"),
        empty("object", &[("id", "1")]),
        start("object", &[("id", "2")]),
        end("object"),
        XmlEvent::Comment,
        end("objectgroup"),
        XmlEvent::Eof,
    ];
    let mut parser = Parser::with_reader(&events);
    let mut properties = Properties::new();

    let first = ObjectLayerData::next_child(&mut parser, &mut properties).unwrap().unwrap();
    assert_eq!(keys(first), keys(&attrs(&[("id", "1")])));
    assert_eq!(properties.len(), 1);
    assert_eq!(properties.get("kind"), Some(&PropertyValue::StringValue("spawn".to_string())));

    let second = ObjectLayerData::next_child(&mut parser, &mut properties).unwrap().unwrap();
    assert_eq!(keys(second), keys(&attrs(&[("id", "2")])));

    assert!(ObjectLayerData::next_child(&mut parser, &mut properties).unwrap().is_none());
    assert_eq!(properties.len(), 1);
}

#[test]
fn a_later_properties_child_replaces_an_earlier_one() {
    let events = vec![
        start("properties", &[]),
        empty("property", &[("name", "a"), ("value", "1")]),
        end("properties"),
        start("properties", &[]),
        empty("property", &[("name", "b"), ("value", "2")]),
        end("properties"),
        end("objectgroup"),
    ];
    let mut parser = Parser::with_reader(&events);
    let mut properties = Properties::new();
    assert!(ObjectLayerData::next_child(&mut parser, &mut properties).unwrap().is_none());
    assert_eq!(properties.len(), 1);
    assert_eq!(properties.get("b"), Some(&PropertyValue::StringValue("2".to_string())));
}

#[test]
fn an_object_layer_cut_short_fails_and_keeps_its_properties() {
    let events = vec![
        start("properties", &[]),
        empty("property", &[("name", "a"), ("value", "1")]),
        end("properties"),
        XmlEvent::Eof,
    ];
    let mut parser = Parser::with_reader(&events);
    let mut properties = Properties::new();
    match ObjectLayerData::next_child(&mut parser, &mut properties) {
        Err(Error::PrematureEnd(m)) => assert_eq!(m, "Document ended before we expected."),
        other => panic!("unexpected {:?}", other),
    }
    assert_eq!(properties.len(), 0);

    let bad = vec![XmlEvent::Start {
        name: b"object".to_vec(),
        attributes: Err("bad attribute".to_string()),
    }];
    let mut parser = Parser::with_reader(&bad);
    match ObjectLayerData::next_child(&mut parser, &mut properties) {
        Err(Error::XmlDecodingError(m)) => assert_eq!(m, "bad attribute"),
        other => panic!("unexpected {:?}", other),
    }
    let past_end: Vec<XmlEvent> = vec![];
    let mut parser = Parser::with_reader(&past_end);
    assert!(matches!(
        ObjectLayerData::next_child(&mut parser, &mut properties),
        Err(Error::PrematureEnd(_))
    ));
}
