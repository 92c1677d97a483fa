//! Reading whole documents: their bytes are turned into XML events by
//! quick-xml (tileset documents) or xml-rs (map documents), and the events
//! are scanned for the document's root element.

use vstd::prelude::*;
use vstd::utf8::encode_utf8;

use quick_xml::events::{BytesStart, Event};
use xml::reader::XmlEvent as RsEvent;

use crate::error::{Error, ErrorView};
use crate::parse::{
    attribute_views, attributes_view, ends_root_search, event_views, lemma_root_scan_view,
    lemma_root_scan_view_first, lemma_root_scan_view_none, map_eof_message, root_search_outcome,
    parse_map_root, parse_tileset_root, root_scan_view, tileset_eof_message, Parser,
    XmlAttribute, XmlEvent, XmlEventView,
};

verus! {

/// The events that quick-xml's reader delivers for `document`, each as its
/// view: a start or empty tag by its local name and its attributes (local
/// name and raw value) or the reason they cannot be read, an end tag by its
/// local name, text as it stands, comments, any other markup, and last the
/// end of the document or the reader's first error.
pub uninterp spec fn quick_xml_events(document: Seq<u8>) -> Seq<XmlEventView>;

/// The events that xml-rs's reader delivers for `document`, each as its
/// view: an element's start by its local name and its attributes (local name
/// and value), an element's end by its local name, characters and
/// whitespace as text, comments, any other markup, and last the end of the
/// document or the reader's first error.
pub uninterp spec fn xml_rs_events(document: Seq<u8>) -> Seq<XmlEventView>;

/// A quick-xml reader over a document.
#[verifier::external_body]
pub struct QuickXmlReader<'a> {
    reader: quick_xml::Reader<&'a [u8]>,
}

/// The events that a quick-xml reader has yet to deliver.
pub uninterp spec fn quick_xml_pending(reader: QuickXmlReader<'_>) -> Seq<XmlEventView>;

/// A start or empty tag that quick-xml has read.
#[verifier::external_body]
pub struct StartTag<'a> {
    tag: BytesStart<'a>,
}

/// The local name of a tag that quick-xml has read.
pub uninterp spec fn start_tag_name(tag: StartTag<'_>) -> Seq<u8>;

/// The attributes of a tag that quick-xml has read (local name and raw
/// value), or the reason they cannot be read.
pub uninterp spec fn start_tag_attributes(tag: StartTag<'_>) -> Result<
    Seq<(Seq<u8>, Seq<u8>)>,
    Seq<char>,
>;

/// An event of a quick-xml reader, its tags not yet taken apart.
pub enum QuickXmlEvent<'a> {
    Start(StartTag<'a>),
    Empty(StartTag<'a>),
    End { name: Vec<u8> },
    Text { content: Vec<u8> },
    Comment,
    Other,
    Eof,
    Error { message: String },
}

/// The view of a quick-xml event.
pub open spec fn quick_xml_event_view(e: QuickXmlEvent<'_>) -> XmlEventView {
    match e {
        QuickXmlEvent::Start(t) => XmlEventView::Start {
            name: start_tag_name(t),
            attributes: start_tag_attributes(t),
        },
        QuickXmlEvent::Empty(t) => XmlEventView::Empty {
            name: start_tag_name(t),
            attributes: start_tag_attributes(t),
        },
        QuickXmlEvent::End { name } => XmlEventView::End { name: name@ },
        QuickXmlEvent::Text { content } => XmlEventView::Text { content: content@ },
        QuickXmlEvent::Comment => XmlEventView::Comment,
        QuickXmlEvent::Other => XmlEventView::Other,
        QuickXmlEvent::Eof => XmlEventView::Eof,
        QuickXmlEvent::Error { message } => XmlEventView::Error { message: message@ },
    }
}

impl<'a> QuickXmlReader<'a> {
    /// Calls `quick_xml::Reader::from_reader` on the document, with the
    /// reader's default configuration: the reader has all the document's
    /// events to deliver, at least the last one.
    #[verifier::external_body]
    fn new(document: &'a [u8]) -> (r: QuickXmlReader<'a>)
        ensures
            quick_xml_pending(r) == quick_xml_events(document@),
            quick_xml_pending(r).len() > 0,
    {
        QuickXmlReader { reader: quick_xml::Reader::from_reader(document) }
    }

    /// Calls `quick_xml::Reader::read_event`, which delivers the next event;
    /// the end of the document or an error is the last one.
    #[verifier::external_body]
    fn next(&mut self) -> (r: QuickXmlEvent<'a>)
        requires
            quick_xml_pending(*old(self)).len() > 0,
        ensures
            quick_xml_event_view(r) == quick_xml_pending(*old(self))[0],
            quick_xml_pending(*final(self)) == quick_xml_pending(*old(self)).drop_first(),
            (r is Eof || r is Error) <==> quick_xml_pending(*old(self)).len() == 1,
    {
        match self.reader.read_event() {
            Ok(Event::Start(s)) => QuickXmlEvent::Start(StartTag { tag: s }),
            Ok(Event::Empty(s)) => QuickXmlEvent::Empty(StartTag { tag: s }),
            Ok(Event::End(e)) => QuickXmlEvent::End { name: e.local_name().into_inner().to_vec() },
            Ok(Event::Text(t)) => QuickXmlEvent::Text { content: t.into_inner().to_vec() },
            Ok(Event::Comment(_)) => QuickXmlEvent::Comment,
            Ok(Event::Eof) => QuickXmlEvent::Eof,
            Ok(_) => QuickXmlEvent::Other,
            Err(e) => QuickXmlEvent::Error { message: e.to_string() },
        }
    }
}

impl<'a> StartTag<'a> {
    /// Calls `BytesStart::local_name`.
    #[verifier::external_body]
    fn local_name(&self) -> (r: Vec<u8>)
        ensures
            r@ == start_tag_name(*self),
    {
        self.tag.local_name().into_inner().to_vec()
    }

    /// Collects `BytesStart::attributes`, each by its key's local name and
    /// its raw value, up to the first attribute that cannot be read.
    #[verifier::external_body]
    fn attributes(&self) -> (r: Result<Vec<XmlAttribute>, String>)
        ensures
            attributes_view(r) == start_tag_attributes(*self),
    {
        self.tag.attributes().map(|a| match a {
            Ok(a) => Ok(XmlAttribute { key: a.key.local_name().into_inner().to_vec(), value: a.value.to_vec() }),
            Err(e) => Err(quick_xml::Error::from(e).to_string()),
        }).collect()
    }
}

/// An xml-rs reader over a document.
#[verifier::external_body]
pub struct XmlRsReader<'a> {
    reader: xml::reader::EventReader<&'a [u8]>,
}

/// The events that an xml-rs reader has yet to deliver.
pub uninterp spec fn xml_rs_pending(reader: XmlRsReader<'_>) -> Seq<XmlEventView>;

impl<'a> XmlRsReader<'a> {
    /// Calls `xml::reader::EventReader::new` on the document, with the
    /// reader's default configuration: the reader has all the document's
    /// events to deliver, at least the last one.
    #[verifier::external_body]
    fn new(document: &'a [u8]) -> (r: XmlRsReader<'a>)
        ensures
            xml_rs_pending(r) == xml_rs_events(document@),
            xml_rs_pending(r).len() > 0,
    {
        XmlRsReader { reader: xml::reader::EventReader::new(document) }
    }

    /// Calls `xml::reader::EventReader::next`, which delivers the next event;
    /// the end of the document or an error is the last one.
    #[verifier::external_body]
    fn next(&mut self) -> (r: XmlEvent)
        requires
            xml_rs_pending(*old(self)).len() > 0,
        ensures
            r@ == xml_rs_pending(*old(self))[0],
            xml_rs_pending(*final(self)) == xml_rs_pending(*old(self)).drop_first(),
            (r is Eof || r is Error) <==> xml_rs_pending(*old(self)).len() == 1,
    {
        match self.reader.next() {
            Ok(RsEvent::StartElement { name, attributes, .. }) => XmlEvent::Start {
                name: name.local_name.into_bytes(),
                attributes: Ok(attributes.into_iter().map(|a| XmlAttribute { key: a.name.local_name.into_bytes(), value: a.value.into_bytes() }).collect()),
            },
            Ok(RsEvent::EndElement { name }) => XmlEvent::End { name: name.local_name.into_bytes() },
            Ok(RsEvent::Characters(t)) | Ok(RsEvent::Whitespace(t)) => XmlEvent::Text { content: t.into_bytes() },
            Ok(RsEvent::Comment(_)) => XmlEvent::Comment,
            Ok(RsEvent::EndDocument) => XmlEvent::Eof,
            Ok(_) => XmlEvent::Other,
            Err(e) => XmlEvent::Error { message: e.to_string() },
        }
    }
}

/// Takes a quick-xml event apart into an [`XmlEvent`].
fn from_quick_xml(e: QuickXmlEvent) -> (r: XmlEvent)
    ensures
        r@ == quick_xml_event_view(e),
{
    match e {
        QuickXmlEvent::Start(t) => XmlEvent::Start { name: t.local_name(), attributes: t.attributes() },
        QuickXmlEvent::Empty(t) => XmlEvent::Empty { name: t.local_name(), attributes: t.attributes() },
        QuickXmlEvent::End { name } => XmlEvent::End { name },
        QuickXmlEvent::Text { content } => XmlEvent::Text { content },
        QuickXmlEvent::Comment => XmlEvent::Comment,
        QuickXmlEvent::Other => XmlEvent::Other,
        QuickXmlEvent::Eof => XmlEvent::Eof,
        QuickXmlEvent::Error { message } => XmlEvent::Error { message },
    }
}

/// All the events that quick-xml reads from `document`.
pub fn read_quick_xml_events(document: &[u8]) -> (r: Vec<XmlEvent>)
    ensures
        event_views(r@) == quick_xml_events(document@),
{
    let mut reader = QuickXmlReader::new(document);
    let mut events: Vec<XmlEvent> = Vec::new();
    loop
        invariant
            event_views(events@) + quick_xml_pending(reader) == quick_xml_events(document@),
            quick_xml_pending(reader).len() > 0,
        decreases quick_xml_pending(reader).len(),
    {
        let ghost before = quick_xml_pending(reader);
        let ghost seen = event_views(events@);
        let raw = reader.next();
        let stop = match raw {
            QuickXmlEvent::Eof => true,
            QuickXmlEvent::Error { .. } => true,
            _ => false,
        };
        let e = from_quick_xml(raw);
        events.push(e);
        assert(event_views(events@) =~= seen.push(before[0]));
        assert(event_views(events@) + quick_xml_pending(reader) =~= seen + before);
        if stop {
            assert(event_views(events@) =~= quick_xml_events(document@));
            return events;
        }
    }
}

/// All the events that xml-rs reads from `document`.
pub fn read_xml_rs_events(document: &[u8]) -> (r: Vec<XmlEvent>)
    ensures
        event_views(r@) == xml_rs_events(document@),
{
    let mut reader = XmlRsReader::new(document);
    let mut events: Vec<XmlEvent> = Vec::new();
    loop
        invariant
            event_views(events@) + xml_rs_pending(reader) == xml_rs_events(document@),
            xml_rs_pending(reader).len() > 0,
        decreases xml_rs_pending(reader).len(),
    {
        let ghost before = xml_rs_pending(reader);
        let ghost seen = event_views(events@);
        let e = reader.next();
        let stop = match e {
            XmlEvent::Eof => true,
            XmlEvent::Error { .. } => true,
            _ => false,
        };
        events.push(e);
        assert(event_views(events@) =~= seen.push(before[0]));
        assert(event_views(events@) + xml_rs_pending(reader) =~= seen + before);
        if stop {
            assert(event_views(events@) =~= xml_rs_events(document@));
            return events;
        }
    }
}

/// A copy of the attributes `a`.
fn copy_attributes(a: &Vec<XmlAttribute>) -> (r: Vec<XmlAttribute>)
    ensures
        attribute_views(r@) == attribute_views(a@),
{
    let mut out: Vec<XmlAttribute> = Vec::new();
    let mut i: usize = 0;
    while i < a.len()
        invariant
            i <= a@.len(),
            attribute_views(out@) =~= attribute_views(a@.subrange(0, i as int)),
        decreases a@.len() - i,
    {
        let key = a[i].key.clone();
        let value = a[i].value.clone();
        assert(key@ =~= a@[i as int].key@);
        assert(value@ =~= a@[i as int].value@);
        let ghost prefix = out@;
        let item = XmlAttribute { key, value };
        assert(item@ == a@[i as int]@);
        out.push(item);
        assert(out@ =~= prefix.push(item));
        assert(a@.subrange(0, i + 1) =~= a@.subrange(0, i as int).push(a@[i as int]));
        assert(attribute_views(out@) =~= attribute_views(prefix).push(item@));
        assert(attribute_views(a@.subrange(0, i + 1)) =~= attribute_views(a@.subrange(0, i as int)).push(a@[i as int]@));
        i = i + 1;
    }
    assert(a@.subrange(0, a@.len() as int) =~= a@);
    out
}

/// What scanning the events `events` for the root element `root` gives:
/// its attributes as (key, value) pairs, or the error.
pub open spec fn document_root(
    events: Seq<XmlEventView>,
    root: Seq<char>,
    eof_message: Seq<char>,
) -> Result<Seq<(Seq<u8>, Seq<u8>)>, ErrorView> {
    root_scan_view(events, 0, false, encode_utf8(root), eof_message).0
}

/// The root of a document is found at the first event that is a start tag
/// named `root`, the end of the document or an error: its attributes, or
/// that error, or the premature end when it is the end of the document. When
/// no such event comes, the document ends prematurely.
pub proof fn lemma_document_root_is_first_stop(
    events: Seq<XmlEventView>,
    root: Seq<char>,
    eof_message: Seq<char>,
)
    ensures
        forall|i: int|
            0 <= i < events.len() && ends_root_search(events[i], encode_utf8(root)) && (forall|j: int|
                0 <= j < i ==> !ends_root_search(#[trigger] events[j], encode_utf8(root)))
                ==> document_root(events, root, eof_message) == root_search_outcome(
                #[trigger] events[i],
                eof_message,
            ),
        (forall|j: int|
            0 <= j < events.len() ==> !ends_root_search(#[trigger] events[j], encode_utf8(root)))
            ==> document_root(events, root, eof_message) == Err::<
            Seq<(Seq<u8>, Seq<u8>)>,
            ErrorView,
        >(ErrorView::PrematureEnd(eof_message)),
{
    let r = encode_utf8(root);
    assert forall|i: int|
        0 <= i < events.len() && ends_root_search(events[i], r) && (forall|j: int|
            0 <= j < i ==> !ends_root_search(#[trigger] events[j], r))
            implies document_root(events, root, eof_message) == root_search_outcome(
            #[trigger] events[i],
            eof_message,
        ) by {
        lemma_root_scan_view_first(events, 0, false, r, eof_message, i);
    }
    if forall|j: int| 0 <= j < events.len() ==> !ends_root_search(#[trigger] events[j], r) {
        lemma_root_scan_view_none(events, 0, false, r, eof_message);
    }
}

/// Reads a tileset document with quick-xml up to the start tag of its
/// `<tileset>` element, and returns that tag's attributes.
pub fn parse_tileset(document: &[u8]) -> (r: Result<Vec<XmlAttribute>, Error>)
    ensures
        match (r, document_root(quick_xml_events(document@), "tileset"@, tileset_eof_message())) {
            (Ok(a), Ok(b)) => attribute_views(a@) == b,
            (Err(e), Err(ev)) => e@ == ev,
            _ => false,
        },
{
    let events = read_quick_xml_events(document);
    let mut parser = Parser::with_reader(&events);
    proof {
        lemma_root_scan_view(events@, 0, false, encode_utf8("tileset"@), tileset_eof_message());
    }
    match parse_tileset_root(&mut parser) {
        Ok(a) => Ok(copy_attributes(a)),
        Err(e) => Err(e),
    }
}

/// Reads a map document with xml-rs up to the start tag of its `<map>`
/// element, and returns that tag's attributes.
pub fn parse_map(document: &[u8]) -> (r: Result<Vec<XmlAttribute>, Error>)
    ensures
        match (r, document_root(xml_rs_events(document@), "map"@, map_eof_message())) {
            (Ok(a), Ok(b)) => attribute_views(a@) == b,
            (Err(e), Err(ev)) => e@ == ev,
            _ => false,
        },
{
    let events = read_xml_rs_events(document);
    let mut parser = Parser::with_reader(&events);
    proof {
        lemma_root_scan_view(events@, 0, false, encode_utf8("map"@), map_eof_message());
    }
    match parse_map_root(&mut parser) {
        Ok(a) => Ok(copy_attributes(a)),
        Err(e) => Err(e),
    }
}

} // verus!
