//! Reading the events of an XML text with `quick_xml`.

use vstd::prelude::*;
use std::borrow::Cow;
use quick_xml::events::BytesStart;
use quick_xml::events::Event::{Start, Empty, End, Text, CData, Eof};
use quick_xml::reader::Reader;
use crate::parser::xml_parser::{XmlEvent, XmlEventModel};

verus! {

#[verifier::external_type_specification]
#[verifier::external_body]
#[verifier::reject_recursive_types(R)]
pub struct ExXmlReader<R>(Reader<R>);

#[verifier::external_type_specification]
#[verifier::external_body]
pub struct ExBytesStart<'a>(BytesStart<'a>);

/// A `quick_xml` reader over a text, with what it has been asked for so
/// far: the text it reads and how many events it has yielded. Only the
/// functions of this module make or advance one, so the count is always the
/// number of events read.
pub struct XmlEventSource<'a> {
    reader: Reader<&'a [u8]>,
    input: Ghost<Seq<char>>,
    count: Ghost<nat>,
}

impl<'a> XmlEventSource<'a> {
    /// The text that the reader reads.
    pub closed spec fn input(&self) -> Seq<char> {
        self.input@
    }

    /// How many events the reader has yielded.
    pub closed spec fn count(&self) -> nat {
        self.count@
    }
}

/// The event at position `k` (from 0) that a `quick_xml` reader made by
/// `Reader::from_str(input)` with `trim_text(true)` yields on its `k + 1`-th
/// call of `read_event`, with element names, attribute keys and values and
/// CDATA decoded as UTF-8 (invalid UTF-8 reads as the empty string), text
/// unescaped (`None` where unescaping fails), and an error given by its
/// `Display` text.
pub uninterp spec fn xml_event_at(input: Seq<char>, k: nat) -> XmlEventModel;

/// `Reader::from_str(input)` configured with `trim_text(true)`, so that
/// whitespace around text is dropped; no event has been read yet.
#[verifier::external_body]
pub(crate) fn event_source<'a>(input: &'a str) -> (r: XmlEventSource<'a>)
    ensures
        r.input() == input@,
        r.count() == 0,
{
    let mut reader = Reader::from_str(input);
    reader.trim_text(true);
    XmlEventSource { reader, input: Ghost(input@), count: Ghost(0) }
}

/// Each attribute of a start or empty element as its key and raw value,
/// decoded as UTF-8; `None` for an attribute that `quick_xml` reports as an
/// error.
#[verifier::external_body]
fn attribute_pairs(e: &BytesStart) -> Vec<Option<(String, String)>> {
    let mut out = Vec::new();
    for a in e.attributes() {
        out.push(match a {
            Ok(attr) => Some((utf8_or_empty(attr.key.as_ref()), utf8_or_empty(&attr.value))),
            Err(_) => None,
        });
    }
    out
}

/// `Reader::read_event`: the next event, as named by `xml_event_at`.
/// Comments, declarations, processing instructions and doctype
/// declarations are `Other`.
#[verifier::external_body]
pub(crate) fn next_event(src: &mut XmlEventSource) -> (e: XmlEvent)
    ensures
        e@ == xml_event_at(old(src).input(), old(src).count()),
        final(src).input() == old(src).input(),
        final(src).count() == old(src).count() + 1,
{
    match src.reader.read_event() {
        Ok(Start(e)) => XmlEvent::Start { name: utf8_or_empty(e.name().as_ref()), attributes: attribute_pairs(&e) },
        Ok(Empty(e)) => XmlEvent::Empty { name: utf8_or_empty(e.name().as_ref()), attributes: attribute_pairs(&e) },
        Ok(End(e)) => XmlEvent::End { name: utf8_or_empty(e.name().as_ref()) },
        Ok(Text(e)) => XmlEvent::Text { text: e.unescape().ok().map(Cow::into_owned) },
        Ok(CData(e)) => XmlEvent::CData { text: utf8_or_empty(&e) },
        Ok(Eof) => XmlEvent::Eof,
        Ok(_) => XmlEvent::Other,
        Err(e) => XmlEvent::Error { message: e.to_string() },
    }
}

/// `std::str::from_utf8(bytes)` as a `String`, or the empty string when
/// `bytes` is not valid UTF-8; a conversion for the two functions above.
#[verifier::external_body]
fn utf8_or_empty(bytes: &[u8]) -> String {
    match std::str::from_utf8(bytes) {
        Ok(s) => s.to_string(),
        Err(_) => String::new(),
    }
}

} // verus!
