use vstd::prelude::*;
use vstd::string::*;
use vstd::utf8::{decode_utf8, encode_utf8, valid_utf8};

use crate::error::{Error, ErrorView};
use crate::parse::{
    bytes_equal_text, read_step, text_from_utf8, utf8_error_text, Parser, XmlAttribute, XmlEvent,
};
use crate::properties::{
    color_from_text, holds_entries, lemma_parse_properties_bounds, parse_properties,
    parse_properties_spec, premature_end_message, Properties, PropertySpec,
};

use crate::map::TiledMap;
use crate::objects::{Object, ObjectData};
use crate::properties::Color;

verus! {

/// Raw data referring to a map object layer or tile collision data.
#[derive(Debug, PartialEq, Clone)]
pub struct ObjectLayerData {
    pub objects: Vec<ObjectData>,
    /// The color used in the editor to display objects in this layer.
    pub colour: Option<Color>,
}

/// The optional `color` attribute among the attributes of an
/// `<objectgroup>` element, a later one replacing an earlier one; reading
/// fails at the first attribute, in order, whose value is no valid UTF-8 or,
/// being a `color`, no color.
pub open spec fn colour_attribute(attrs: Seq<XmlAttribute>) -> Result<Option<Color>, ErrorView>
    decreases attrs.len(),
{
    if attrs.len() == 0 {
        Ok(None)
    } else {
        match colour_attribute(attrs.drop_last()) {
            Err(e) => Err(e),
            Ok(c) => {
                let last = attrs.last();
                if !valid_utf8(last.value@) {
                    Err(ErrorView::XmlDecodingError(utf8_error_text(last.value@)))
                } else if last.key@ == encode_utf8("color"@) {
                    match color_from_text(decode_utf8(last.value@)) {
                        Some(col) => Ok(Some(col)),
                        None => Err(
                            ErrorView::MalformedAttributes(
                                "Error parsing optional attribute 'color'"@,
                            ),
                        ),
                    }
                } else {
                    Ok(c)
                }
            },
        }
    }
}

proof fn lemma_colour_attribute_prefix_error(attrs: Seq<XmlAttribute>, i: int)
    requires
        0 <= i <= attrs.len(),
        colour_attribute(attrs.take(i)) is Err,
    ensures
        colour_attribute(attrs) == colour_attribute(attrs.take(i)),
    decreases attrs.len() - i,
{
    if i < attrs.len() {
        assert(attrs.take(i + 1).drop_last() =~= attrs.take(i));
        lemma_colour_attribute_prefix_error(attrs, i + 1);
    } else {
        assert(attrs.take(i) =~= attrs);
    }
}

/// Reading on among the children of an `<objectgroup>` element from `pos`
/// with flag `empty`, `props` being the entries of the last `<properties>`
/// child read so far: up to the next `<object>` tag (its attributes) or the
/// end tag `</objectgroup>` (no attributes), together with the entries of the
/// last `<properties>` child read on the way; or why reading failed; and
/// where the reader then stands. Other children are passed over.
pub open spec fn object_layer_scan(
    events: Seq<XmlEvent>,
    pos: int,
    empty: bool,
    props: Option<Seq<(Seq<char>, PropertySpec)>>,
) -> (
    Result<(Option<Seq<XmlAttribute>>, Option<Seq<(Seq<char>, PropertySpec)>>), ErrorView>,
    int,
    bool,
)
    decreases events.len() - pos,
{
    let (r, p2, e2) = read_step(events, pos, empty);
    if !(pos < p2 <= events.len()) {
        match r {
            Err(e) => (Err(e), p2, e2),
            Ok(_) => (Err(ErrorView::PrematureEnd(premature_end_message())), p2, e2),
        }
    } else {
        match r {
            Err(e) => (Err(e), p2, e2),
            Ok(ev) => {
                let element = match ev {
                    XmlEvent::Start { name, attributes } => Some((name, attributes)),
                    XmlEvent::Empty { name, attributes } => Some((name, attributes)),
                    _ => None,
                };
                match element {
                    Some((name, attributes)) => if name@ == encode_utf8("object"@) {
                        match attributes {
                            Err(m) => (Err(ErrorView::XmlDecodingError(m@)), p2, e2),
                            Ok(a) => (Ok((Some(a@), props)), p2, e2),
                        }
                    } else if name@ == encode_utf8("properties"@) {
                        let (res, p3, e3) = parse_properties_spec(events, p2, e2);
                        match res {
                            Err(e) => (Err(e), p3, e3),
                            Ok(entries) => if p2 <= p3 <= events.len() {
                                object_layer_scan(events, p3, e3, Some(entries))
                            } else {
                                (Ok((None, Some(entries))), p3, e3)
                            },
                        }
                    } else {
                        object_layer_scan(events, p2, e2, props)
                    },
                    None => match ev {
                        XmlEvent::End { name } => if name@ == encode_utf8("objectgroup"@) {
                            (Ok((None, props)), p2, e2)
                        } else {
                            object_layer_scan(events, p2, e2, props)
                        },
                        XmlEvent::Eof => (
                            Err(ErrorView::PrematureEnd(premature_end_message())),
                            p2,
                            e2,
                        ),
                        _ => object_layer_scan(events, p2, e2, props),
                    },
                }
            },
        }
    }
}

/// An event that reading the children of an object layer passes over: any
/// tag other than `object` and `properties`, any end tag other than
/// `</objectgroup>`, text, comments and other markup.
pub open spec fn passed_over_in_object_layer(e: XmlEvent) -> bool {
    match e {
        XmlEvent::Start { name, .. } => name@ != encode_utf8("object"@) && name@ != encode_utf8(
            "properties"@,
        ),
        XmlEvent::Empty { name, .. } => name@ != encode_utf8("object"@) && name@ != encode_utf8(
            "properties"@,
        ),
        XmlEvent::End { name } => name@ != encode_utf8("objectgroup"@),
        XmlEvent::Eof => false,
        XmlEvent::Error { .. } => false,
        _ => true,
    }
}

/// Reading the children of an object layer passes over everything but the
/// tags it looks for, and stops at the first of them: an `<object>` tag
/// yields its attributes, `</objectgroup>` ends the layer, the end of the
/// document (or of the events) is premature, and a reader error is that
/// error; in each case the properties read so far are kept.
pub proof fn lemma_object_layer_scan_first_stop(
    events: Seq<XmlEvent>,
    pos: int,
    empty: bool,
    props: Option<Seq<(Seq<char>, PropertySpec)>>,
    i: int,
)
    requires
        0 <= pos <= i <= events.len(),
        forall|j: int| pos <= j < i ==> passed_over_in_object_layer(#[trigger] events[j]),
    ensures
        i == events.len() ==> object_layer_scan(events, pos, empty, props).0 == Err::<
            (Option<Seq<XmlAttribute>>, Option<Seq<(Seq<char>, PropertySpec)>>),
            ErrorView,
        >(ErrorView::PrematureEnd(premature_end_message())),
        i < events.len() ==> match events[i] {
            XmlEvent::Start { name, attributes: Ok(a) } => name@ == encode_utf8("object"@)
                ==> object_layer_scan(events, pos, empty, props) == (
                Ok::<
                    (Option<Seq<XmlAttribute>>, Option<Seq<(Seq<char>, PropertySpec)>>),
                    ErrorView,
                >((Some(a@), props)),
                i + 1,
                false,
            ),
            XmlEvent::Empty { name, attributes: Ok(a) } => name@ == encode_utf8("object"@)
                ==> object_layer_scan(events, pos, empty, props) == (
                Ok::<
                    (Option<Seq<XmlAttribute>>, Option<Seq<(Seq<char>, PropertySpec)>>),
                    ErrorView,
                >((Some(a@), props)),
                i + 1,
                true,
            ),
            XmlEvent::End { name } => name@ == encode_utf8("objectgroup"@) ==> object_layer_scan(
                events,
                pos,
                empty,
                props,
            ) == (
                Ok::<
                    (Option<Seq<XmlAttribute>>, Option<Seq<(Seq<char>, PropertySpec)>>),
                    ErrorView,
                >((None, props)),
                i + 1,
                false,
            ),
            XmlEvent::Eof => object_layer_scan(events, pos, empty, props).0 == Err::<
                (Option<Seq<XmlAttribute>>, Option<Seq<(Seq<char>, PropertySpec)>>),
                ErrorView,
            >(ErrorView::PrematureEnd(premature_end_message())),
            XmlEvent::Error { message } => object_layer_scan(events, pos, empty, props).0 == Err::<
                (Option<Seq<XmlAttribute>>, Option<Seq<(Seq<char>, PropertySpec)>>),
                ErrorView,
            >(ErrorView::XmlDecodingError(message@)),
            _ => true,
        },
    decreases i - pos,
{
    if pos < i {
        assert(passed_over_in_object_layer(events[pos]));
        let (r, p2, e2) = read_step(events, pos, empty);
        lemma_object_layer_scan_first_stop(events, p2, e2, props, i);
    }
}

impl ObjectLayerData {
    /// Reads the optional `color` attribute of an `<objectgroup>` element.
    pub fn colour_attribute(attrs: &Vec<XmlAttribute>) -> (r: Result<Option<Color>, Error>)
        ensures
            match (r, colour_attribute(attrs@)) {
                (Ok(c), Ok(d)) => c == d,
                (Err(e), Err(ev)) => e@ == ev,
                _ => false,
            },
    {
        let mut colour: Option<Color> = None;
        let n = attrs.len();
        let mut i: usize = 0;
        assert(attrs@.take(0) =~= Seq::<XmlAttribute>::empty());
        while i < n
            invariant
                n == attrs@.len(),
                i <= n,
                colour_attribute(attrs@.take(i as int)) == Ok::<Option<Color>, ErrorView>(colour),
            decreases n - i,
        {
            let a = &attrs[i];
            assert(attrs@.take(i + 1).drop_last() =~= attrs@.take(i as int));
            assert(attrs@.take(i + 1).last() == attrs@[i as int]);
            let text = match text_from_utf8(a.value.as_slice()) {
                Ok(text) => text,
                Err(m) => {
                    proof {
                        lemma_colour_attribute_prefix_error(attrs@, i + 1);
                    }
                    return Err(Error::XmlDecodingError(m));
                },
            };
            if bytes_equal_text(&a.key, "color") {
                match Color::parse_text(text.as_str()) {
                    Ok(c) => {
                        colour = Some(c);
                    },
                    Err(_) => {
                        proof {
                            lemma_colour_attribute_prefix_error(attrs@, i + 1);
                        }
                        return Err(
                            Error::MalformedAttributes(
                                String::from_str("Error parsing optional attribute 'color'"),
                            ),
                        );
                    },
                }
            }
            i = i + 1;
        }
        assert(attrs@.take(n as int) =~= attrs@);
        Ok(colour)
    }

    /// Reads on among the children of an `<objectgroup>` element up to the
    /// next `<object>` tag, whose attributes it returns (the object's own
    /// contents are for the object reader that follows), or up to the end
    /// tag `</objectgroup>` (`None`). A `<properties>` child on the way is
    /// read, and its properties replace those in `properties`; on an error
    /// `properties` is left as it was. Reading the layer starts with
    /// [`ObjectLayerData::colour_attribute`], and reads children only when
    /// the `<objectgroup>` tag was not an empty element tag.
    pub fn next_child<'a>(parser: &mut Parser<'a>, properties: &mut Properties) -> (r: Result<
        Option<&'a Vec<XmlAttribute>>,
        Error,
    >)
        requires
            old(parser).pos <= old(parser).events@.len(),
        ensures
            final(parser).events == old(parser).events,
            final(parser).pos <= final(parser).events@.len(),
            ({
                let (res, pos, empty) = object_layer_scan(
                    old(parser).events@,
                    old(parser).pos as int,
                    old(parser).last_event_was_empty,
                    None,
                );
                &&& final(parser).pos == pos
                &&& final(parser).last_event_was_empty == empty
                &&& match (r, res) {
                    (Ok(o), Ok((obj, props))) => {
                        &&& match (o, obj) {
                            (Some(a), Some(b)) => a@ == b,
                            (None, None) => true,
                            _ => false,
                        }
                        &&& match props {
                            Some(entries) => holds_entries(*final(properties), entries),
                            None => *final(properties) == *old(properties),
                        }
                    },
                    (Err(e), Err(ev)) => e@ == ev && *final(properties) == *old(properties),
                    _ => false,
                }
            }),
    {
        let ghost events = parser.events@;
        let mut latest: Option<Properties> = None;
        let ghost mut read: Option<Seq<(Seq<char>, PropertySpec)>> = None;
        loop
            invariant
                parser.events == old(parser).events,
                parser.events@ == events,
                old(parser).events@ == events,
                parser.pos <= events.len(),
                *properties == *old(properties),
                match latest {
                    Some(p) => read matches Some(entries) && holds_entries(p, entries),
                    None => read is None,
                },
                object_layer_scan(
                    events,
                    old(parser).pos as int,
                    old(parser).last_event_was_empty,
                    None,
                ) == object_layer_scan(events, parser.pos as int, parser.last_event_was_empty, read),
            decreases events.len() - parser.pos,
        {
            let next = parser.read_event()?;
            match next {
                None => {
                    return Err(Error::PrematureEnd(String::from_str("Document ended before we expected.")));
                },
                Some(ev) => {
                    let element = match ev {
                        XmlEvent::Start { name, attributes } => Some((name, attributes)),
                        XmlEvent::Empty { name, attributes } => Some((name, attributes)),
                        _ => None,
                    };
                    match element {
                        Some((name, attributes)) => {
                            if bytes_equal_text(name, "object") {
                                return match attributes {
                                    Err(m) => Err(Error::XmlDecodingError(m.clone())),
                                    Ok(a) => {
                                        if let Some(p) = latest {
                                            *properties = p;
                                        }
                                        Ok(Some(a))
                                    },
                                };
                            } else if bytes_equal_text(name, "properties") {
                                let ghost p2 = parser.pos as int;
                                let ghost e2 = parser.last_event_was_empty;
                                proof {
                                    lemma_parse_properties_bounds(events, p2, e2);
                                }
                                let got = parse_properties(parser)?;
                                proof {
                                    read = Some(parse_properties_spec(events, p2, e2).0->Ok_0);
                                }
                                latest = Some(got);
                            }
                        },
                        None => {
                            match ev {
                                XmlEvent::End { name } => {
                                    if bytes_equal_text(name, "objectgroup") {
                                        if let Some(p) = latest {
                                            *properties = p;
                                        }
                                        return Ok(None);
                                    }
                                },
                                XmlEvent::Eof => {
                                    return Err(
                                        Error::PrematureEnd(
                                            String::from_str("Document ended before we expected."),
                                        ),
                                    );
                                },
                                _ => {},
                            }
                        },
                    }
                },
            }
        }
    }

    /// Returns the data belonging to the objects contained within the layer, in the order they were
    /// declared in the TMX file.
    pub fn object_data(&self) -> (r: &[ObjectData])
        ensures
            r@ == self.objects@,
    {
        self.objects.as_slice()
    }
}

/// Also called an "object group". Used for storing [`Object`]s in a map.
#[derive(Debug, Clone, Copy)]
pub struct ObjectLayer<'map> {
    pub map: &'map TiledMap,
    pub data: &'map ObjectLayerData,
}

impl<'map> ObjectLayer<'map> {
    pub fn new(map: &'map TiledMap, data: &'map ObjectLayerData) -> (r: Self)
        ensures
            r.map == map,
            r.data == data,
    {
        Self { map, data }
    }

    /// Get the map this object is from.
    pub fn map(&self) -> (r: &'map TiledMap)
        ensures
            r == self.map,
    {
        self.map
    }

    /// Obtains the object corresponding to the index given.
    pub fn get_object(&self, idx: usize) -> (r: Option<Object<'map>>)
        ensures
            match r {
                Some(o) => idx < self.data.objects@.len() && o.map == self.map && *o.data
                    == self.data.objects@[idx as int],
                None => idx >= self.data.objects@.len(),
            },
    {
        if idx < self.data.objects.len() {
            Some(Object::new(self.map, &self.data.objects[idx]))
        } else {
            None
        }
    }

    /// Returns the objects present in this layer, in the order they were declared
    /// in in the TMX file.
    pub fn objects(&self) -> (r: Vec<Object<'map>>)
        ensures
            r@.len() == self.data.objects@.len(),
            forall|i: int|
                0 <= i < r@.len() ==> #[trigger] r@[i].map == self.map && *r@[i].data
                    == self.data.objects@[i],
    {
        let map: &'map TiledMap = self.map;
        let objects = &self.data.objects;
        let mut r: Vec<Object<'map>> = Vec::new();
        let mut i: usize = 0;
        while i < objects.len()
            invariant
                i <= objects@.len(),
                objects == &self.data.objects,
                map == self.map,
                r@.len() == i,
                forall|j: int|
                    0 <= j < i ==> #[trigger] r@[j].map == self.map && *r@[j].data == objects@[j],
            decreases objects@.len() - i,
        {
            r.push(Object::new(map, &objects[i]));
            i = i + 1;
        }
        r
    }
}

impl<'map> core::ops::Deref for ObjectLayer<'map> {
    type Target = ObjectLayerData;

    fn deref(&self) -> (r: &ObjectLayerData)
        ensures
            *r == *self.data,
    {
        self.data
    }
}

} // verus!
