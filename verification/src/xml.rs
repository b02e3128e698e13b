//! XML documents as the stream of events quick-xml's reader produces.
use vstd::prelude::*;

#[allow(unused_imports)]
use quick_xml::events::Event::{Empty, End, Eof, Start, Text};
#[allow(unused_imports)]
use std::borrow::Cow;

verus! {

/// One attribute of a tag: its local key and its value with references
/// resolved (`None` where the value cannot be resolved).
pub type XmlAttr = (String, Option<String>);

/// One event of an XML document.
#[derive(Clone, Debug, PartialEq, Eq)]
pub enum XmlEvent {
    /// A start tag or an empty-element tag: its local name and the
    /// attributes quick-xml could read, in document order.
    Open(String, Vec<XmlAttr>),
    /// Character data between tags, line ends normalized.
    Text(String),
    /// An end tag: its local name.
    Close(String),
    /// Anything else: comments, CDATA, declarations, entity references.
    Other,
}

/// An attribute as plain character sequences.
pub type AttrView = (Seq<char>, Option<Seq<char>>);

/// An event as plain character sequences.
pub enum XmlEventView {
    Open(Seq<char>, Seq<AttrView>),
    Text(Seq<char>),
    Close(Seq<char>),
    Other,
}

pub open spec fn attr_view(a: XmlAttr) -> AttrView {
    (a.0@, a.1.deep_view())
}

impl View for XmlEvent {
    type V = XmlEventView;

    open spec fn view(&self) -> XmlEventView {
        match self {
            XmlEvent::Open(t, attrs) => XmlEventView::Open(
                t@,
                attrs@.map_values(|a: XmlAttr| attr_view(a)),
            ),
            XmlEvent::Text(t) => XmlEventView::Text(t@),
            XmlEvent::Close(t) => XmlEventView::Close(t@),
            XmlEvent::Other => XmlEventView::Other,
        }
    }
}

pub open spec fn events_view(v: Seq<XmlEvent>) -> Seq<XmlEventView> {
    v.map_values(|e: XmlEvent| e@)
}

/// The events quick-xml's `Reader` reads from the document `doc` (default
/// configuration), in order, up to but not including the end of the document
/// or the first error.
pub uninterp spec fn xml_events(doc: Seq<char>) -> Seq<XmlEventView>;

/// `quick_xml::Reader::from_str` over `xml`, then `Reader::read_event` until
/// it reports the end of the document or an error; each event converted to
/// an `XmlEvent`. The contract claims only that the result is `xml_events`
/// of the document: what quick-xml makes of a given document is not stated.
#[verifier::external_body]
#[allow(deprecated)]
pub(crate) fn read_xml_events(xml: &str) -> (r: Vec<XmlEvent>)
    ensures
        events_view(r@) == xml_events(xml@),
{
    let mut reader = quick_xml::Reader::from_str(xml);
    let mut out = Vec::new();
    loop {
        out.push(match reader.read_event() {
            Ok(Start(e) | Empty(e)) => XmlEvent::Open(e.local_name().as_ref().to_owned(),
                e.attributes().flatten().map(|a| (a.key.local_name().as_ref().to_owned(),
                    a.unescape_value().ok().map(Cow::into_owned))).collect()),
            Ok(Text(e)) => XmlEvent::Text(e.xml10_content().into_owned()),
            Ok(End(e)) => XmlEvent::Close(e.local_name().as_ref().to_owned()),
            Ok(Eof) | Err(_) => return out,
            Ok(_) => XmlEvent::Other,
        });
    }
}

} // verus!
