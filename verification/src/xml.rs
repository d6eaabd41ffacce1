//! The tokenizer of the markup syntax and the builder of tags, as `quick_xml`
//! provides them. Everything in this file is believed, not proved: each item
//! says what it takes from `quick_xml` and what it claims of it.

use crate::event::{attributes_text, Attribute, EventView, TokenKind};
use crate::scan::has_bare_doctype;
use quick_xml::events::BytesStart;
use quick_xml::events::Event as XmlEvent;
use quick_xml::reader::Reader;
use quick_xml::Error as XmlError;
use vstd::prelude::*;

verus! {

/// `quick_xml::reader::Reader`, the tokenizer. Nothing inside it is visible.
#[verifier::external_type_specification]
#[verifier::external_body]
#[verifier::reject_recursive_types(R)]
pub struct ExReader<R>(Reader<R>);

/// `quick_xml::Error`, the failure of a reader or a writer. It is only carried.
#[verifier::external_type_specification]
#[verifier::external_body]
pub struct ExXmlError(XmlError);

/// The events that a reader over a byte slice still holds: those that
/// successive calls of `Reader::read_event` return, in order, before the first
/// call that reports the end of the input or fails.
pub uninterp spec fn pending(reader: Reader<&[u8]>) -> Seq<EventView>;

/// The events that a new reader over `bytes` holds: what `quick_xml` makes of
/// a whole document.
pub uninterp spec fn tokens(bytes: Seq<u8>) -> Seq<EventView>;

/// The bytes that a reader over a byte slice was made from.
pub uninterp spec fn source(reader: Reader<&[u8]>) -> Seq<u8>;

/// `Reader::from_reader` on a byte slice, with the settings a new reader has.
/// The claim gives the events it holds their name, and keeps the bytes.
#[verifier::external_body]
pub(crate) fn open_reader<'a>(bytes: &'a [u8]) -> (reader: Reader<&'a [u8]>)
    ensures
        pending(reader) == tokens(bytes@),
        source(reader) == bytes@,
{
    Reader::from_reader(bytes)
}

/// `Reader::read_event`, which hands out the next event; `None` stands for the
/// end of the input and for a failure alike. The claim: while events are
/// pending, the kind and the bytes returned are those of the first, and the
/// rest stay pending; after them the reader is at its end and stays there.
/// On a `<!DOCTYPE` with nothing but blanks before its `>` the tokenizer
/// runs into an assertion of its own, so such input is left out.
#[verifier::external_body]
pub(crate) fn read_token(reader: &mut Reader<&[u8]>) -> (token: Option<(TokenKind, Vec<u8>)>)
    requires
        !has_bare_doctype(source(*old(reader))),
    ensures
        source(*final(reader)) == source(*old(reader)),
        match token {
            Some((kind, payload)) => {
                &&& pending(*old(reader)).len() > 0
                &&& kind == pending(*old(reader))[0].kind()
                &&& payload@ == pending(*old(reader))[0].payload()
                &&& pending(*final(reader)) == pending(*old(reader)).skip(1)
            },
            None => pending(*old(reader)).len() == 0 && pending(*final(reader)).len() == 0,
        },
{
    let event = reader.read_event().ok()?;
    let kind = match &event {
        XmlEvent::Start(_) => TokenKind::Start,
        XmlEvent::End(_) => TokenKind::End,
        XmlEvent::Empty(_) => TokenKind::Empty,
        XmlEvent::Text(_) => TokenKind::Text,
        XmlEvent::Comment(_) => TokenKind::Comment,
        XmlEvent::CData(_) => TokenKind::CData,
        XmlEvent::Decl(_) => TokenKind::Decl,
        XmlEvent::PI(_) => TokenKind::PI,
        XmlEvent::DocType(_) => TokenKind::DocType,
        XmlEvent::Eof => return None,
    };
    Some((kind, event.to_vec()))
}

/// `Reader::read_event` on a copy of the reader, then `BytesStart::name` and
/// `BytesStart::attributes` on a tag: the name and the attributes of the next
/// event where it is an opening or a self-closing tag, attributes that
/// `quick_xml` reports as malformed left out. The reader itself does not move.
/// The input that `read_token` leaves out is left out here too.
#[verifier::external_body]
pub(crate) fn peek_tag(reader: &Reader<&[u8]>) -> (tag: Option<(Vec<u8>, Vec<Attribute>)>)
    requires
        !has_bare_doctype(source(*reader)),
    ensures
        match tag {
            Some((name, attributes)) => {
                &&& pending(*reader).len() > 0
                &&& pending(*reader)[0].is_tag()
                &&& name@ == pending(*reader)[0].tag().name
                &&& attributes.deep_view() == pending(*reader)[0].tag().attributes
            },
            None => pending(*reader).len() == 0 || !pending(*reader)[0].is_tag(),
        },
{
    match reader.clone().read_event() {
        Ok(XmlEvent::Start(e)) | Ok(XmlEvent::Empty(e)) => Some(
            (
                e.name().as_ref().to_vec(),
                e.attributes().filter_map(Result::ok).map(
                    |a| Attribute { key: a.key.as_ref().to_vec(), value: a.value.to_vec() },
                ).collect(),
            ),
        ),
        _ => None,
    }
}

/// `BytesStart::extend_attributes` on a tag that holds the name alone: the
/// content of a tag with these attributes. As its source shows, each
/// attribute is appended as a space, the key, `="`, the value unchanged, `"`.
#[verifier::external_body]
pub(crate) fn rebuild(name: &[u8], attributes: &Vec<Attribute>) -> (content: Vec<u8>)
    ensures
        content@ == name@ + attributes_text(attributes.deep_view()),
{
    let mut tag = BytesStart::new("");
    tag.set_name(name);
    tag.extend_attributes(attributes.iter().map(|a| (a.key.as_slice(), a.value.as_slice())));
    tag.to_vec()
}

} // verus!
