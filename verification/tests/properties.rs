use tiled::error::Error;
use tiled::parse::{Parser, XmlAttribute, XmlEvent};
use tiled::properties::{
    has_properties_tag_next, parse_properties, Color, Properties, PropertyValue,
};

fn attrs(pairs: &[(&str, &str)]) -> Vec<XmlAttribute> {
    pairs
        .iter()
        .map(|(k, v)| XmlAttribute { key: k.as_bytes().to_vec(), value: v.as_bytes().to_vec() })
        .collect()
}

fn empty(name: &str, pairs: &[(&str, &str)]) -> XmlEvent {
    XmlEvent::Empty { name: name.as_bytes().to_vec(), attributes: Ok(attrs(pairs)) }
}

fn start(name: &str, pairs: &[(&str, &str)]) -> XmlEvent {
    XmlEvent::Start { name: name.as_bytes().to_vec(), attributes: Ok(attrs(pairs)) }
}

fn end(name: &str) -> XmlEvent {
    XmlEvent::End { name: name.as_bytes().to_vec() }
}

fn text(t: &str) -> XmlEvent {
    XmlEvent::Text { content: t.as_bytes().to_vec() }
}

fn string_value(s: &str) -> PropertyValue {
    PropertyValue::StringValue(s.to_string())
}

#[test]
fn simple_properties_are_read_with_their_types() {
    let events = vec![
        empty("property", &[("name", "a"), ("type", "int"), ("value", "-3")]),
        empty("property", &[("name", "b"), ("value", "x")]),
        empty("property", &[("name", "c"), ("type", "bool"), ("value", "true")]),
        empty("property", &[("name", "d"), ("type", "color"), ("value", "#ff102030")]),
        empty("property", &[("name", "e"), ("type", "object"), ("value", "12")]),
        empty("property", &[("name", "f"), ("type", "file"), ("value", "img.png")]),
        empty("property", &[("name", "g"), ("type", "float"), ("value", "1.5")]),
        end("properties"),
        text("after"),
    ];
    let mut parser = Parser::with_reader(&events);
    let p = parse_properties(&mut parser).unwrap();
    assert_eq!(p.len(), 7);
    assert_eq!(p.get("a"), Some(&PropertyValue::IntValue(-3)));
    assert_eq!(p.get("b"), Some(&string_value("x")));
    assert_eq!(p.get("c"), Some(&PropertyValue::BoolValue(true)));
    assert_eq!(
        p.get("d"),
        Some(&PropertyValue::ColorValue(Color { alpha: 0xff, red: 0x10, green: 0x20, blue: 0x30 }))
    );
    assert_eq!(p.get("e"), Some(&PropertyValue::ObjectValue(12)));
    assert_eq!(p.get("f"), Some(&PropertyValue::FileValue("img.png".to_string())));
    assert_eq!(p.get("g"), Some(&PropertyValue::FloatValue("1.5".to_string())));
    assert_eq!(parser.pos, 8);
}

#[test]
fn a_later_property_of_a_name_replaces_an_earlier_one() {
    let events = vec![
        empty("property", &[("name", "a"), ("value", "first")]),
        empty("property", &[("name", "a"), ("value", "second")]),
        end("properties"),
    ];
    let mut parser = Parser::with_reader(&events);
    let p = parse_properties(&mut parser).unwrap();
    assert_eq!(p.len(), 1);
    assert_eq!(p.get("a"), Some(&string_value("second")));
}

#[test]
fn a_property_without_value_takes_the_following_text() {
    let events = vec![
        start("property", &[("name", "poem")]),
        text("two\nlines"),
        end("property"),
        end("properties"),
    ];
    let mut parser = Parser::with_reader(&events);
    let p = parse_properties(&mut parser).unwrap();
    assert_eq!(p.get("poem"), Some(&string_value("two\nlines")));
}

#[test]
fn a_property_without_value_or_text_is_malformed() {
    let events = vec![start("property", &[("name", "k")]), end("property"), end("properties")];
    let mut parser = Parser::with_reader(&events);
    match parse_properties(&mut parser) {
        Err(Error::MalformedAttributes(m)) => assert_eq!(m, "property `k` is missing a value"),
        other => panic!("unexpected {:?}", other),
    }
}

#[test]
fn a_property_without_name_is_malformed() {
    let events = vec![empty("property", &[("value", "1")]), end("properties")];
    let mut parser = Parser::with_reader(&events);
    match parse_properties(&mut parser) {
        Err(Error::MalformedAttributes(m)) => assert_eq!(m, "Missing attribute: name"),
        other => panic!("unexpected {:?}", other),
    }
}

#[test]
fn class_properties_read_their_nested_properties() {
    let events = vec![
        start("property", &[("name", "k"), ("type", "class"), ("propertytype", "Spawn")]),
        text("\n  "),
        XmlEvent::Comment,
        start("properties", &[]),
        empty("property", &[("name", "n"), ("type", "int"), ("value", "4")]),
        end("properties"),
        end("property"),
        empty("property", &[("name", "plain"), ("type", "class")]),
        end("properties"),
    ];
    let mut parser = Parser::with_reader(&events);
    let p = parse_properties(&mut parser).unwrap();
    assert_eq!(p.len(), 2);
    match p.get("k") {
        Some(PropertyValue::ClassValue { property_type, properties }) => {
            assert_eq!(property_type, "Spawn");
            assert_eq!(properties.len(), 1);
            assert_eq!(properties.get("n"), Some(&PropertyValue::IntValue(4)));
        }
        other => panic!("unexpected {:?}", other),
    }
    match p.get("plain") {
        Some(PropertyValue::ClassValue { property_type, properties }) => {
            assert_eq!(property_type, "");
            assert_eq!(properties.len(), 0);
        }
        other => panic!("unexpected {:?}", other),
    }
    assert_eq!(parser.pos, events.len());
}

#[test]
fn the_end_of_the_document_inside_properties_is_premature() {
    let events = vec![empty("property", &[("name", "a"), ("value", "1")])];
    let mut parser = Parser::with_reader(&events);
    match parse_properties(&mut parser) {
        Err(Error::PrematureEnd(m)) => assert_eq!(m, "Document ended before we expected."),
        other => panic!("unexpected {:?}", other),
    }
}

#[test]
fn reader_errors_and_bad_values_are_reported() {
    let events = vec![XmlEvent::Error { message: "broken".to_string() }];
    let mut parser = Parser::with_reader(&events);
    match parse_properties(&mut parser) {
        Err(Error::XmlDecodingError(m)) => assert_eq!(m, "broken"),
        other => panic!("unexpected {:?}", other),
    }

    let events = vec![empty("property", &[("name", "a"), ("type", "int"), ("value", "x")]), end("properties")];
    let mut parser = Parser::with_reader(&events);
    match parse_properties(&mut parser) {
        Err(Error::InvalidPropertyValue { description }) => {
            assert_eq!(description, "invalid digit found in string")
        }
        other => panic!("unexpected {:?}", other),
    }

    let events = vec![empty("property", &[("name", "a"), ("type", "vec"), ("value", "x")]), end("properties")];
    let mut parser = Parser::with_reader(&events);
    match parse_properties(&mut parser) {
        Err(Error::UnknownPropertyType { property_type }) => assert_eq!(property_type, "vec"),
        other => panic!("unexpected {:?}", other),
    }

    let events = vec![
        XmlEvent::Empty {
            name: b"property".to_vec(),
            attributes: Ok(vec![XmlAttribute { key: b"name".to_vec(), value: vec![0xff, 0xfe] }]),
        },
        end("properties"),
    ];
    let mut parser = Parser::with_reader(&events);
    assert!(matches!(parse_properties(&mut parser), Err(Error::XmlDecodingError(_))));

    let events = vec![
        XmlEvent::Start { name: b"property".to_vec(), attributes: Err("bad attribute".to_string()) },
        end("properties"),
    ];
    let mut parser = Parser::with_reader(&events);
    match parse_properties(&mut parser) {
        Err(Error::XmlDecodingError(m)) => assert_eq!(m, "bad attribute"),
        other => panic!("unexpected {:?}", other),
    }
}

#[test]
fn an_empty_properties_element_reads_nothing() {
    let events = vec![empty("property", &[("name", "a"), ("value", "1")]), end("properties")];
    let mut parser = Parser::with_reader(&events);
    parser.last_event_was_empty = true;
    let p = parse_properties(&mut parser).unwrap();
    assert_eq!(p.len(), 0);
    assert_eq!(parser.pos, 0);
}

#[test]
fn properties_tag_is_found_past_whitespace_and_comments() {
    let events = vec![text(" \t\r\n"), XmlEvent::Comment, start("properties", &[])];
    let mut parser = Parser::with_reader(&events);
    assert!(has_properties_tag_next(&mut parser));
    assert_eq!(parser.pos, 3);

    let events = vec![text("words"), start("properties", &[])];
    let mut parser = Parser::with_reader(&events);
    assert!(!has_properties_tag_next(&mut parser));
    assert_eq!(parser.pos, 1);

    let events = vec![empty("properties", &[])];
    let mut parser = Parser::with_reader(&events);
    assert!(!has_properties_tag_next(&mut parser));

    let events = vec![start("properties", &[])];
    let mut parser = Parser::with_reader(&events);
    parser.last_event_was_empty = true;
    assert!(!has_properties_tag_next(&mut parser));
    assert_eq!(parser.pos, 0);

    let events: Vec<XmlEvent> = vec![];
    let mut parser = Parser::with_reader(&events);
    assert!(!has_properties_tag_next(&mut parser));
}

#[test]
fn property_values_check_their_type() {
    let v = |t: &str, s: &str| PropertyValue::new(t.to_string(), s.to_string());
    assert_eq!(v("bool", "false").unwrap(), PropertyValue::BoolValue(false));
    match v("bool", "yes") {
        Err(Error::InvalidPropertyValue { description }) => {
            assert_eq!(description, "provided string was not `true` or `false`")
        }
        other => panic!("unexpected {:?}", other),
    }
    match v("float", "") {
        Err(Error::InvalidPropertyValue { description }) => {
            assert_eq!(description, "cannot parse float from empty string")
        }
        other => panic!("unexpected {:?}", other),
    }
    match v("float", "1.2.3") {
        Err(Error::InvalidPropertyValue { description }) => assert_eq!(description, "invalid float literal"),
        other => panic!("unexpected {:?}", other),
    }
    match v("int", "99999999999") {
        Err(Error::InvalidPropertyValue { description }) => {
            assert_eq!(description, "number too large to fit in target type")
        }
        other => panic!("unexpected {:?}", other),
    }
    match v("object", "-1") {
        Err(Error::InvalidPropertyValue { description }) => {
            assert_eq!(description, "invalid digit found in string")
        }
        other => panic!("unexpected {:?}", other),
    }
    match v("color", "#zz0000") {
        Err(Error::InvalidPropertyValue { description }) => assert_eq!(description, "Couldn't parse color"),
        other => panic!("unexpected {:?}", other),
    }
    match v("color", "é") {
        Err(Error::InvalidPropertyValue { description }) => assert_eq!(description, "Couldn't parse color"),
        other => panic!("unexpected {:?}", other),
    }
    match v("color", "x") {
        Err(Error::UnknownPropertyType { property_type }) => assert_eq!(property_type, "color"),
        other => panic!("unexpected {:?}", other),
    }
    assert_eq!(v("string", "").unwrap(), string_value(""));
}

#[test]
fn colors_read_with_or_without_hash_and_alpha() {
    assert_eq!(
        Color::parse_text("#FF0000"),
        Ok(Color { alpha: 0xff, red: 0xff, green: 0, blue: 0 })
    );
    assert_eq!(
        "80112233".parse::<Color>(),
        Ok(Color { alpha: 0x80, red: 0x11, green: 0x22, blue: 0x33 })
    );
    assert_eq!(Color::parse_text("#+f+f+f"), Ok(Color { alpha: 0xff, red: 15, green: 15, blue: 15 }));
    assert_eq!(Color::parse_text("#12345"), Err(()));
    assert_eq!(Color::parse_text("##123456"), Err(()));
    assert_eq!(Color::parse_text("#GG0000"), Err(()));
    assert_eq!(Color::parse_text("#-10000"), Err(()));
    assert_eq!(Color::parse_text("ÿÿÿ"), Err(()));
    assert_eq!(Color::parse_text(""), Err(()));
}

#[test]
fn a_color_written_in_hex_reads_back() {
    let c = Color { alpha: 0x0a, red: 0xbc, green: 0x00, blue: 0xff };
    let argb = format!("#{:02X}{:02X}{:02X}{:02X}", c.alpha, c.red, c.green, c.blue);
    assert_eq!(Color::parse_text(&argb), Ok(c));
    assert_eq!(Color::parse_text(&argb[1..]), Ok(c));
    let rgb = format!("#{:02X}{:02X}{:02X}", c.red, c.green, c.blue);
    assert_eq!(Color::parse_text(&rgb), Ok(Color { alpha: 0xff, ..c }));
}

#[test]
fn a_properties_container_maps_names_to_values() {
    let mut p = Properties::new();
    assert_eq!(p.len(), 0);
    p.insert("x".to_string(), PropertyValue::IntValue(1));
    p.insert("x".to_string(), PropertyValue::IntValue(2));
    assert_eq!(p.len(), 1);
    assert_eq!(p.get("x"), Some(&PropertyValue::IntValue(2)));
    assert_eq!(p.get("y"), None);
}

#[test]
fn properties_clone_with_their_values() {
    let mut p = Properties::new();
    p.insert("a".to_string(), PropertyValue::IntValue(4));
    let mut nested = Properties::new();
    nested.insert("b".to_string(), string_value("x"));
    p.insert(
        "c".to_string(),
        PropertyValue::ClassValue { property_type: "T".to_string(), properties: nested },
    );
    let q = p.clone();
    assert_eq!(q.len(), 2);
    assert_eq!(q, p);
    let d = Properties::default();
    assert_eq!(d.len(), 0);
}
