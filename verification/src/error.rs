//! The failures of parsing, looking up, writing and encoding, each with what
//! it was raised on.

use crate::event::{Element, ElementView, Event, EventView};
use quick_xml::Error as XmlError;
use std::io::Error as IoError;
use std::path::PathBuf;
use std::string::FromUtf8Error;
use vstd::prelude::*;
use vstd::utf8::{decode_utf8, valid_utf8};

verus! {

/// `std::string::FromUtf8Error`; it is only carried.
#[verifier::external_type_specification]
#[verifier::external_body]
pub struct ExFromUtf8Error(FromUtf8Error);

/// `std::io::Error`; it is only carried.
#[verifier::external_type_specification]
#[verifier::external_body]
pub struct ExIoError(IoError);

/// `std::path::PathBuf`; it is only carried.
#[verifier::external_type_specification]
#[verifier::external_body]
pub struct ExPathBuf(PathBuf);

/// `String::from_utf8`: succeeds exactly on valid UTF-8, with the text the bytes
/// encode, as its documentation says.
pub assume_specification[ String::from_utf8 ](vec: Vec<u8>) -> (text: Result<String, FromUtf8Error>)
    ensures
        text is Ok <==> valid_utf8(vec@),
        text matches Ok(s) ==> s@ == decode_utf8(vec@),
;

/// The text of an optional string.
pub open spec fn text_view(text: Option<String>) -> Option<Seq<char>> {
    match text {
        Some(s) => Some(s@),
        None => None,
    }
}

/// Which part of an object's identity is meant.
#[derive(Debug, Clone, Copy, PartialEq, Eq, Structural)]
pub enum DimensionOrId {
    Width,
    Height,
    Id,
}

/// An identity attribute whose value is not UTF-8; holds the element and the
/// value.
#[derive(Debug)]
pub struct DimensionUtf8 {
    pub element: Element,
    pub value: Vec<u8>,
    pub dimension: DimensionOrId,
}

/// A width or a height whose text is no number; holds the element and the
/// text.
#[derive(Debug)]
pub struct DimensionParse {
    pub element: Element,
    pub text: String,
    pub dimension: DimensionOrId,
}

/// A rectangle or an image without a width, a height or an id; holds the
/// element and what was found.
#[derive(Debug)]
pub struct MissingObjectIdentifier {
    pub element: Element,
    pub width: Option<String>,
    pub height: Option<String>,
    pub id: Option<String>,
}

/// Why an element that should be a rectangle or an image has no identity.
#[derive(Debug)]
pub enum IdentifierError {
    DimensionUtf8(DimensionUtf8),
    DimensionParse(DimensionParse),
    MissingObjectIdentifier(MissingObjectIdentifier),
}

/// Mathematical model of an [`IdentifierError`].
pub enum IdentifierErrorView {
    DimensionUtf8 { element: ElementView, value: Seq<u8>, dimension: DimensionOrId },
    DimensionParse { element: ElementView, text: Seq<char>, dimension: DimensionOrId },
    MissingObjectIdentifier {
        element: ElementView,
        width: Option<Seq<char>>,
        height: Option<Seq<char>>,
        id: Option<Seq<char>>,
    },
}

impl View for IdentifierError {
    type V = IdentifierErrorView;

    open spec fn view(&self) -> IdentifierErrorView {
        match *self {
            IdentifierError::DimensionUtf8(e) => IdentifierErrorView::DimensionUtf8 {
                element: e.element@,
                value: e.value@,
                dimension: e.dimension,
            },
            IdentifierError::DimensionParse(e) => IdentifierErrorView::DimensionParse {
                element: e.element@,
                text: e.text@,
                dimension: e.dimension,
            },
            IdentifierError::MissingObjectIdentifier(e) => {
                IdentifierErrorView::MissingObjectIdentifier {
                    element: e.element@,
                    width: text_view(e.width),
                    height: text_view(e.height),
                    id: text_view(e.id),
                }
            },
        }
    }
}

/// A layer whose opening tag has no `id`, or one that is not UTF-8.
#[derive(Debug)]
pub struct MissingLayerId {
    pub element: Element,
}

/// A layer whose opening tag has no label, or one that is not UTF-8.
#[derive(Debug)]
pub struct MissingLayerName {
    pub event: Element,
}

/// A layer that is not closed before the stream ends.
#[derive(Debug)]
pub struct MissingLayerEnd {
    pub layer_name: String,
}

/// An object inside a layer that has no identity.
#[derive(Debug)]
pub struct ParseObject {
    pub error: IdentifierError,
    pub layer_name: String,
}

/// Why a layer could not be parsed.
#[derive(Debug)]
pub enum ParseLayer {
    MissingLayerEnd(MissingLayerEnd),
    ParseObject(ParseObject),
    MissingLayerName(MissingLayerName),
    MissingLayerId(MissingLayerId),
}

/// Mathematical model of a [`ParseLayer`].
pub enum ParseLayerView {
    MissingLayerEnd { layer_name: Seq<char> },
    ParseObject { error: IdentifierErrorView, layer_name: Seq<char> },
    MissingLayerName { event: ElementView },
    MissingLayerId { element: ElementView },
}

impl View for ParseLayer {
    type V = ParseLayerView;

    open spec fn view(&self) -> ParseLayerView {
        match *self {
            ParseLayer::MissingLayerEnd(e) => ParseLayerView::MissingLayerEnd {
                layer_name: e.layer_name@,
            },
            ParseLayer::ParseObject(e) => ParseLayerView::ParseObject {
                error: e.error@,
                layer_name: e.layer_name@,
            },
            ParseLayer::MissingLayerName(e) => ParseLayerView::MissingLayerName {
                event: e.event@,
            },
            ParseLayer::MissingLayerId(e) => ParseLayerView::MissingLayerId {
                element: e.element@,
            },
        }
    }
}

/// An id that no rectangle and no image of the document has.
#[derive(Debug)]
pub struct MissingId {
    pub id: String,
}

/// An event before the first layer that a writer did not take.
#[derive(Debug)]
pub struct LeadingEvents {
    pub err: XmlError,
    pub event: Event,
}

/// The opening tag of a layer that a writer did not take.
#[derive(Debug)]
pub struct LayerHeader {
    pub err: XmlError,
    pub header: Event,
}

/// An object of a layer that a writer did not take.
#[derive(Debug)]
pub struct LayerBody {
    pub err: XmlError,
    pub object: Event,
}

/// The closing tag of a layer that a writer did not take.
#[derive(Debug)]
pub struct LayerFooter {
    pub err: XmlError,
    pub footer: Event,
}

/// An event after the last layer that a writer did not take.
#[derive(Debug)]
pub struct TrailingEvents {
    pub err: XmlError,
    pub event: Event,
}

/// A part of a layer that a writer did not take.
#[derive(Debug)]
pub enum LayerError {
    Header(LayerHeader),
    Body(LayerBody),
    Footer(LayerFooter),
}

/// Why a document could not be parsed, or why a writer did not take it.
#[derive(Debug)]
pub enum Error {
    LeadingEvents(LeadingEvents),
    Layer(LayerError),
    TrailingEvents(TrailingEvents),
    ParseLayer(ParseLayer),
}

/// The part of a document that an event is written in.
#[derive(Debug, Clone, Copy, PartialEq, Eq, Structural)]
pub enum Phase {
    Leading,
    Header,
    Body,
    Footer,
    Trailing,
}

/// Mathematical model of an [`Error`]: a write that failed in a phase on an
/// event, with the failure of the writer, or a parse that failed.
pub enum ErrorView {
    Write { phase: Phase, err: XmlError, event: EventView },
    ParseLayer(ParseLayerView),
}

impl View for Error {
    type V = ErrorView;

    open spec fn view(&self) -> ErrorView {
        match *self {
            Error::LeadingEvents(e) => ErrorView::Write {
                phase: Phase::Leading,
                err: e.err,
                event: e.event@,
            },
            Error::Layer(LayerError::Header(e)) => ErrorView::Write {
                phase: Phase::Header,
                err: e.err,
                event: e.header@,
            },
            Error::Layer(LayerError::Body(e)) => ErrorView::Write {
                phase: Phase::Body,
                err: e.err,
                event: e.object@,
            },
            Error::Layer(LayerError::Footer(e)) => ErrorView::Write {
                phase: Phase::Footer,
                err: e.err,
                event: e.footer@,
            },
            Error::TrailingEvents(e) => ErrorView::Write {
                phase: Phase::Trailing,
                err: e.err,
                event: e.event@,
            },
            Error::ParseLayer(e) => ErrorView::ParseLayer(e@),
        }
    }
}

impl Error {
    /// The failure `err` of a writer on `event` in `phase`.
    pub fn write(phase: Phase, err: XmlError, event: Event) -> (error: Error)
        ensures
            error@ == (ErrorView::Write { phase, err, event: event@ }),
    {
        match phase {
            Phase::Leading => Error::LeadingEvents(LeadingEvents { err, event }),
            Phase::Header => Error::Layer(LayerError::Header(LayerHeader { err, header: event })),
            Phase::Body => Error::Layer(LayerError::Body(LayerBody { err, object: event })),
            Phase::Footer => Error::Layer(LayerError::Footer(LayerFooter { err, footer: event })),
            Phase::Trailing => Error::TrailingEvents(TrailingEvents { err, event }),
        }
    }
}

/// A file that could not be opened.
#[derive(Debug)]
pub struct OpenFile {
    pub error: IoError,
    pub path: PathBuf,
}

/// A file that could not be read to its end.
#[derive(Debug)]
pub struct ReadBytes {
    pub error: IoError,
    pub path: PathBuf,
}

/// A file whose bytes start like no known image format.
#[derive(Debug)]
pub struct UnknownMime {
    pub path: PathBuf,
}

/// An image file that is not a PNG.
#[derive(Debug)]
pub struct WrongEncoding {
    pub path: PathBuf,
}

/// Why a file could not be made into an embeddable image.
#[derive(Debug)]
pub enum EncodingError {
    OpenFile(OpenFile),
    ReadBytes(ReadBytes),
    UnknownMime(UnknownMime),
    WrongEncoding(WrongEncoding),
}

} // verus!
