//! The events of an XML document, and a cursor that reads them one after the
//! other the way the document parsers of this crate consume them.

use vstd::prelude::*;
use vstd::utf8::{decode_utf8, encode_utf8, valid_utf8};

use crate::error::{Error, ErrorView};

verus! {

/// An attribute of an element: its local name (the part after any `:`) and
/// its raw value.
#[derive(Debug)]
pub struct XmlAttribute {
    pub key: Vec<u8>,
    pub value: Vec<u8>,
}

/// One event of an XML reader. Element names are local names.
#[derive(Debug)]
pub enum XmlEvent {
    /// A start tag, with its attributes or the reason they could not be read.
    Start { name: Vec<u8>, attributes: Result<Vec<XmlAttribute>, String> },
    /// An empty element tag `<tag/>`.
    Empty { name: Vec<u8>, attributes: Result<Vec<XmlAttribute>, String> },
    /// An end tag.
    End { name: Vec<u8> },
    /// Character data between tags, as it stands in the document.
    Text { content: Vec<u8> },
    /// A comment.
    Comment,
    /// Any other markup: CDATA, declarations, processing instructions.
    Other,
    /// The end of the document.
    Eof,
    /// The reader failed.
    Error { message: String },
}

/// [`XmlEvent`] with its byte strings and texts taken as sequences and each
/// attribute as its (key, value) pair.
pub enum XmlEventView {
    Start { name: Seq<u8>, attributes: Result<Seq<(Seq<u8>, Seq<u8>)>, Seq<char>> },
    Empty { name: Seq<u8>, attributes: Result<Seq<(Seq<u8>, Seq<u8>)>, Seq<char>> },
    End { name: Seq<u8> },
    Text { content: Seq<u8> },
    Comment,
    Other,
    Eof,
    Error { message: Seq<char> },
}

impl View for XmlAttribute {
    type V = (Seq<u8>, Seq<u8>);

    open spec fn view(&self) -> (Seq<u8>, Seq<u8>) {
        (self.key@, self.value@)
    }
}

/// The (key, value) pairs of `attributes`.
pub open spec fn attribute_views(attributes: Seq<XmlAttribute>) -> Seq<(Seq<u8>, Seq<u8>)> {
    attributes.map_values(|a: XmlAttribute| a@)
}

/// The view of a start tag's attributes, or of the reason they are missing.
pub open spec fn attributes_view(attributes: Result<Vec<XmlAttribute>, String>) -> Result<
    Seq<(Seq<u8>, Seq<u8>)>,
    Seq<char>,
> {
    match attributes {
        Ok(a) => Ok(attribute_views(a@)),
        Err(m) => Err(m@),
    }
}

impl View for XmlEvent {
    type V = XmlEventView;

    open spec fn view(&self) -> XmlEventView {
        match self {
            XmlEvent::Start { name, attributes } => XmlEventView::Start {
                name: name@,
                attributes: attributes_view(*attributes),
            },
            XmlEvent::Empty { name, attributes } => XmlEventView::Empty {
                name: name@,
                attributes: attributes_view(*attributes),
            },
            XmlEvent::End { name } => XmlEventView::End { name: name@ },
            XmlEvent::Text { content } => XmlEventView::Text { content: content@ },
            XmlEvent::Comment => XmlEventView::Comment,
            XmlEvent::Other => XmlEventView::Other,
            XmlEvent::Eof => XmlEventView::Eof,
            XmlEvent::Error { message } => XmlEventView::Error { message: message@ },
        }
    }
}

/// The views of `events`.
pub open spec fn event_views(events: Seq<XmlEvent>) -> Seq<XmlEventView> {
    events.map_values(|e: XmlEvent| e@)
}

/// A reader of XML events, positioned at `pos`, that remembers whether the
/// last event it delivered was an empty element tag.
pub struct Parser<'a> {
    pub events: &'a Vec<XmlEvent>,
    pub pos: usize,
    pub last_event_was_empty: bool,
}

/// Reading one event at `pos` with the flag `empty`: the event (or the
/// reader's error), the next position and the next flag. Past the last event
/// the reader delivers the end of the document and stays where it is; an
/// error leaves the flag as it was.
pub open spec fn read_step(events: Seq<XmlEvent>, pos: int, empty: bool) -> (
    Result<XmlEvent, ErrorView>,
    int,
    bool,
) {
    if pos < 0 || pos >= events.len() {
        (Ok(XmlEvent::Eof), pos, false)
    } else {
        match events[pos] {
            XmlEvent::Error { message } => (
                Err(ErrorView::XmlDecodingError(message@)),
                pos + 1,
                empty,
            ),
            e => (Ok(e), pos + 1, e is Empty),
        }
    }
}

impl<'a> Parser<'a> {
    /// A reader at the first of `events`.
    pub fn with_reader(events: &'a Vec<XmlEvent>) -> (r: Parser<'a>)
        ensures
            r.events == events,
            r.pos == 0,
            !r.last_event_was_empty,
    {
        Parser { events, pos: 0, last_event_was_empty: false }
    }

    /// Reads the next event; `None` stands for the end of the document
    /// past the last event.
    pub fn read_event(&mut self) -> (r: Result<Option<&'a XmlEvent>, Error>)
        requires
            old(self).pos <= old(self).events@.len(),
        ensures
            final(self).events == old(self).events,
            final(self).pos <= final(self).events@.len(),
            (r matches Ok(None)) <==> old(self).pos >= old(self).events@.len(),
            ({
                let (ev, pos, empty) = read_step(
                    old(self).events@,
                    old(self).pos as int,
                    old(self).last_event_was_empty,
                );
                &&& final(self).pos == pos
                &&& final(self).last_event_was_empty == empty
                &&& match r {
                    Ok(Some(e)) => ev == Ok::<XmlEvent, ErrorView>(*e),
                    Ok(None) => ev == Ok::<XmlEvent, ErrorView>(XmlEvent::Eof),
                    Err(err) => ev == Err::<XmlEvent, ErrorView>(err@),
                }
            }),
    {
        if self.pos >= self.events.len() {
            self.last_event_was_empty = false;
            return Ok(None);
        }
        let e = &self.events[self.pos];
        self.pos = self.pos + 1;
        match e {
            XmlEvent::Error { message } => Err(Error::XmlDecodingError(message.clone())),
            _ => {
                self.last_event_was_empty = match e {
                    XmlEvent::Empty { .. } => true,
                    _ => false,
                };
                Ok(Some(e))
            },
        }
    }
}

/// Whether the bytes `b` are exactly the UTF-8 encoding of `s`.
pub fn bytes_equal_text(b: &Vec<u8>, s: &str) -> (r: bool)
    ensures
        r == (b@ == encode_utf8(s@)),
{
    let t = s.as_bytes();
    let n = b.len();
    if n != t.len() {
        return false;
    }
    let mut i: usize = 0;
    while i < n
        invariant
            n == b@.len(),
            n == t@.len(),
            t@ == encode_utf8(s@),
            i <= n,
            forall|j: int| 0 <= j < i ==> b@[j] == t@[j],
        decreases n - i,
    {
        if b[i] != t[i] {
            return false;
        }
        i = i + 1;
    }
    assert(b@ =~= t@);
    true
}

/// The message of the standard library's error for bytes that are no valid
/// UTF-8.
pub uninterp spec fn utf8_error_text(bytes: Seq<u8>) -> Seq<char>;

/// Calls `core::str::from_utf8`, which accepts exactly the valid UTF-8
/// encodings and yields the characters they encode; on failure its error's
/// text is returned.
#[verifier::external_body]
pub(crate) fn text_from_utf8(bytes: &[u8]) -> (r: Result<String, String>)
    ensures
        match r {
            Ok(s) => valid_utf8(bytes@) && s@ == decode_utf8(bytes@),
            Err(m) => !valid_utf8(bytes@) && m@ == utf8_error_text(bytes@),
        },
{
    match core::str::from_utf8(bytes) {
        Ok(s) => Ok(s.to_string()),
        Err(e) => Err(e.to_string()),
    }
}

/// Reading on from `pos` up to the start tag of the root element named
/// `root`: its attributes (or why they cannot be read), or the reader's
/// error, or the end of the document with the message `eof_message`; and
/// where the reader then stands.
pub open spec fn root_scan(
    events: Seq<XmlEvent>,
    pos: int,
    empty: bool,
    root: Seq<u8>,
    eof_message: Seq<char>,
) -> (Result<Seq<XmlAttribute>, ErrorView>, int, bool)
    decreases events.len() - pos,
{
    let (r, p2, e2) = read_step(events, pos, empty);
    match r {
        Err(e) => (Err(e), p2, e2),
        Ok(XmlEvent::Start { name, attributes }) => if name@ == root {
            match attributes {
                Ok(a) => (Ok(a@), p2, e2),
                Err(m) => (Err(ErrorView::XmlDecodingError(m@)), p2, e2),
            }
        } else if pos < p2 <= events.len() {
            root_scan(events, p2, e2, root, eof_message)
        } else {
            (Err(ErrorView::PrematureEnd(eof_message)), p2, e2)
        },
        Ok(XmlEvent::Eof) => (Err(ErrorView::PrematureEnd(eof_message)), p2, e2),
        Ok(_) => if pos < p2 <= events.len() {
            root_scan(events, p2, e2, root, eof_message)
        } else {
            (Err(ErrorView::PrematureEnd(eof_message)), p2, e2)
        },
    }
}

/// [`read_step`] on the views of the events.
pub open spec fn read_step_view(events: Seq<XmlEventView>, pos: int, empty: bool) -> (
    Result<XmlEventView, ErrorView>,
    int,
    bool,
) {
    if pos < 0 || pos >= events.len() {
        (Ok(XmlEventView::Eof), pos, false)
    } else {
        match events[pos] {
            XmlEventView::Error { message } => (
                Err(ErrorView::XmlDecodingError(message)),
                pos + 1,
                empty,
            ),
            e => (Ok(e), pos + 1, e is Empty),
        }
    }
}

/// [`root_scan`] on the views of the events: the root's attributes come as
/// (key, value) pairs.
pub open spec fn root_scan_view(
    events: Seq<XmlEventView>,
    pos: int,
    empty: bool,
    root: Seq<u8>,
    eof_message: Seq<char>,
) -> (Result<Seq<(Seq<u8>, Seq<u8>)>, ErrorView>, int, bool)
    decreases events.len() - pos,
{
    let (r, p2, e2) = read_step_view(events, pos, empty);
    match r {
        Err(e) => (Err(e), p2, e2),
        Ok(XmlEventView::Start { name, attributes }) => if name == root {
            match attributes {
                Ok(a) => (Ok(a), p2, e2),
                Err(m) => (Err(ErrorView::XmlDecodingError(m)), p2, e2),
            }
        } else if pos < p2 <= events.len() {
            root_scan_view(events, p2, e2, root, eof_message)
        } else {
            (Err(ErrorView::PrematureEnd(eof_message)), p2, e2)
        },
        Ok(XmlEventView::Eof) => (Err(ErrorView::PrematureEnd(eof_message)), p2, e2),
        Ok(_) => if pos < p2 <= events.len() {
            root_scan_view(events, p2, e2, root, eof_message)
        } else {
            (Err(ErrorView::PrematureEnd(eof_message)), p2, e2)
        },
    }
}

/// Whether the event `e` ends the search for the root element `root`: a
/// start tag named `root`, the end of the document, or an error.
pub open spec fn ends_root_search(e: XmlEventView, root: Seq<u8>) -> bool {
    match e {
        XmlEventView::Start { name, .. } => name == root,
        XmlEventView::Eof => true,
        XmlEventView::Error { .. } => true,
        _ => false,
    }
}

/// What the event that ends the search for the root element gives: the
/// root's attributes, or the error.
pub open spec fn root_search_outcome(e: XmlEventView, eof_message: Seq<char>) -> Result<
    Seq<(Seq<u8>, Seq<u8>)>,
    ErrorView,
> {
    match e {
        XmlEventView::Start { attributes, .. } => match attributes {
            Ok(a) => Ok(a),
            Err(m) => Err(ErrorView::XmlDecodingError(m)),
        },
        XmlEventView::Error { message } => Err(ErrorView::XmlDecodingError(message)),
        _ => Err(ErrorView::PrematureEnd(eof_message)),
    }
}

/// The search for the root element from `pos` stops at the first event
/// that ends it, `events[i]`.
pub proof fn lemma_root_scan_view_first(
    events: Seq<XmlEventView>,
    pos: int,
    empty: bool,
    root: Seq<u8>,
    eof_message: Seq<char>,
    i: int,
)
    requires
        0 <= pos <= i < events.len(),
        forall|j: int| pos <= j < i ==> !ends_root_search(#[trigger] events[j], root),
        ends_root_search(events[i], root),
    ensures
        root_scan_view(events, pos, empty, root, eof_message).0 == root_search_outcome(
            events[i],
            eof_message,
        ),
    decreases i - pos,
{
    if pos < i {
        assert(!ends_root_search(events[pos], root));
        let (r, p2, e2) = read_step_view(events, pos, empty);
        lemma_root_scan_view_first(events, p2, e2, root, eof_message, i);
    }
}

/// The search for the root element from `pos` ends prematurely when no
/// event from `pos` on ends it.
pub proof fn lemma_root_scan_view_none(
    events: Seq<XmlEventView>,
    pos: int,
    empty: bool,
    root: Seq<u8>,
    eof_message: Seq<char>,
)
    requires
        0 <= pos <= events.len(),
        forall|j: int| pos <= j < events.len() ==> !ends_root_search(#[trigger] events[j], root),
    ensures
        root_scan_view(events, pos, empty, root, eof_message).0 == Err::<
            Seq<(Seq<u8>, Seq<u8>)>,
            ErrorView,
        >(ErrorView::PrematureEnd(eof_message)),
    decreases events.len() - pos,
{
    if pos < events.len() {
        assert(!ends_root_search(events[pos], root));
        let (r, p2, e2) = read_step_view(events, pos, empty);
        lemma_root_scan_view_none(events, p2, e2, root, eof_message);
    }
}

/// Scanning for the root element sees only the views of the events.
pub proof fn lemma_root_scan_view(
    events: Seq<XmlEvent>,
    pos: int,
    empty: bool,
    root: Seq<u8>,
    eof_message: Seq<char>,
)
    requires
        0 <= pos <= events.len(),
    ensures
        ({
            let (r, p, e) = root_scan(events, pos, empty, root, eof_message);
            let (rv, pv, ev) = root_scan_view(event_views(events), pos, empty, root, eof_message);
            &&& p == pv
            &&& e == ev
            &&& match (r, rv) {
                (Ok(a), Ok(b)) => attribute_views(a) == b,
                (Err(x), Err(y)) => x == y,
                _ => false,
            }
        }),
    decreases events.len() - pos,
{
    let views = event_views(events);
    if pos < events.len() {
        assert(views[pos] == events[pos]@);
        let (r, p2, e2) = read_step(events, pos, empty);
        if pos < p2 <= events.len() {
            lemma_root_scan_view(events, p2, e2, root, eof_message);
        }
    }
}

pub open spec fn tileset_eof_message() -> Seq<char> {
    "Tileset Document ended before map was parsed"@
}

pub open spec fn map_eof_message() -> Seq<char> {
    "Document ended before map was parsed"@
}

/// Reads up to the start tag of the root element named `root`.
fn find_root<'a>(parser: &mut Parser<'a>, root: &str, eof_message: &str) -> (r: Result<
    &'a Vec<XmlAttribute>,
    Error,
>)
    requires
        old(parser).pos <= old(parser).events@.len(),
    ensures
        final(parser).events == old(parser).events,
        final(parser).pos <= final(parser).events@.len(),
        ({
            let (res, pos, empty) = root_scan(
                old(parser).events@,
                old(parser).pos as int,
                old(parser).last_event_was_empty,
                encode_utf8(root@),
                eof_message@,
            );
            &&& final(parser).pos == pos
            &&& final(parser).last_event_was_empty == empty
            &&& match (r, res) {
                (Ok(a), Ok(b)) => a@ == b,
                (Err(e), Err(ev)) => e@ == ev,
                _ => false,
            }
        }),
{
    let ghost events = parser.events@;
    loop
        invariant
            parser.events == old(parser).events,
            parser.events@ == events,
            old(parser).events@ == events,
            parser.pos <= events.len(),
            root_scan(
                events,
                old(parser).pos as int,
                old(parser).last_event_was_empty,
                encode_utf8(root@),
                eof_message@,
            ) == root_scan(
                events,
                parser.pos as int,
                parser.last_event_was_empty,
                encode_utf8(root@),
                eof_message@,
            ),
        decreases events.len() - parser.pos,
    {
        match parser.read_event()? {
            None => {
                return Err(Error::PrematureEnd(String::from_str(eof_message)));
            },
            Some(XmlEvent::Start { name, attributes }) => {
                if bytes_equal_text(name, root) {
                    return match attributes {
                        Ok(a) => Ok(a),
                        Err(m) => Err(Error::XmlDecodingError(m.clone())),
                    };
                }
            },
            Some(XmlEvent::Eof) => {
                return Err(Error::PrematureEnd(String::from_str(eof_message)));
            },
            Some(_) => {},
        }
    }
}

/// Reads a tileset document up to the start tag of its `<tileset>` element,
/// whose attributes it returns.
pub fn parse_tileset_root<'a>(parser: &mut Parser<'a>) -> (r: Result<&'a Vec<XmlAttribute>, Error>)
    requires
        old(parser).pos <= old(parser).events@.len(),
    ensures
        final(parser).events == old(parser).events,
        final(parser).pos <= final(parser).events@.len(),
        ({
            let (res, pos, empty) = root_scan(
                old(parser).events@,
                old(parser).pos as int,
                old(parser).last_event_was_empty,
                encode_utf8("tileset"@),
                tileset_eof_message(),
            );
            &&& final(parser).pos == pos
            &&& final(parser).last_event_was_empty == empty
            &&& match (r, res) {
                (Ok(a), Ok(b)) => a@ == b,
                (Err(e), Err(ev)) => e@ == ev,
                _ => false,
            }
        }),
{
    find_root(parser, "tileset", "Tileset Document ended before map was parsed")
}

/// Reads a map document up to the start tag of its `<map>` element, whose
/// attributes it returns.
pub fn parse_map_root<'a>(parser: &mut Parser<'a>) -> (r: Result<&'a Vec<XmlAttribute>, Error>)
    requires
        old(parser).pos <= old(parser).events@.len(),
    ensures
        final(parser).events == old(parser).events,
        final(parser).pos <= final(parser).events@.len(),
        ({
            let (res, pos, empty) = root_scan(
                old(parser).events@,
                old(parser).pos as int,
                old(parser).last_event_was_empty,
                encode_utf8("map"@),
                map_eof_message(),
            );
            &&& final(parser).pos == pos
            &&& final(parser).last_event_was_empty == empty
            &&& match (r, res) {
                (Ok(a), Ok(b)) => a@ == b,
                (Err(e), Err(ev)) => e@ == ev,
                _ => false,
            }
        }),
{
    find_root(parser, "map", "Document ended before map was parsed")
}

} // verus!
