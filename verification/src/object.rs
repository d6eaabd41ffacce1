//! The objects of a layer: rectangles that wait for an image, images, and
//! everything else, which is only carried.

use crate::codec::{base64_standard, encode_base64, guess_format, is_known_format, is_png, Format};
use crate::error::{
    text_view, DimensionOrId, DimensionParse, DimensionUtf8, EncodingError, IdentifierError,
    IdentifierErrorView, MissingObjectIdentifier, UnknownMime, WrongEncoding,
};
use crate::event::{
    bytes_eq, copy_bytes, tag_content, without_key, Attribute, AttributeView, Element,
    ElementView, Event, EventView, HEIGHT, HREF, ID, IMAGE, RECT, STYLE, WIDTH,
};
use crate::number::{is_number, is_number_text};
use std::path::PathBuf;
use vstd::prelude::*;
use vstd::slice::slice_to_vec;
use vstd::utf8::{decode_utf8, valid_utf8};

verus! {

/// The identity of a rectangle or an image: its id and its dimensions, the
/// dimensions as the decimal text the document wrote.
#[derive(Debug, Clone, PartialEq, Eq)]
pub struct Identifiers {
    pub id: String,
    pub width: String,
    pub height: String,
}

/// Mathematical model of [`Identifiers`].
pub struct IdentifiersView {
    pub id: Seq<char>,
    pub width: Seq<char>,
    pub height: Seq<char>,
}

impl View for Identifiers {
    type V = IdentifiersView;

    open spec fn view(&self) -> IdentifiersView {
        IdentifiersView { id: self.id@, width: self.width@, height: self.height@ }
    }
}

/// Which part of an identity an attribute key stands for, if any.
pub open spec fn dimension_of(key: Seq<u8>) -> Option<DimensionOrId> {
    if key == WIDTH@ {
        Some(DimensionOrId::Width)
    } else if key == HEIGHT@ {
        Some(DimensionOrId::Height)
    } else if key == ID@ {
        Some(DimensionOrId::Id)
    } else {
        None
    }
}

/// What is wrong with an attribute as a part of an identity.
pub enum Fault {
    /// Its value is not UTF-8.
    Utf8 { dimension: DimensionOrId, value: Seq<u8> },
    /// It is a width or a height, and its text is no number.
    Parse { dimension: DimensionOrId, text: Seq<char> },
}

/// What is wrong with an attribute as a part of an identity: a value that is
/// not UTF-8, or a width or height that is no number. Other keys are never
/// at fault.
pub open spec fn fault(a: AttributeView) -> Option<Fault> {
    match dimension_of(a.key) {
        None => None,
        Some(dimension) => if !valid_utf8(a.value) {
            Some(Fault::Utf8 { dimension, value: a.value })
        } else if dimension != DimensionOrId::Id && !is_number(a.value) {
            Some(Fault::Parse { dimension, text: decode_utf8(a.value) })
        } else {
            None
        },
    }
}

/// The fault of the first attribute that has one.
pub open spec fn first_fault(attributes: Seq<AttributeView>) -> Option<Fault>
    decreases attributes.len(),
{
    if attributes.len() == 0 {
        None
    } else {
        match first_fault(attributes.drop_last()) {
            Some(f) => Some(f),
            None => fault(attributes.last()),
        }
    }
}

/// The failure that a fault of an attribute of `element` is.
pub open spec fn blame(element: ElementView, fault: Fault) -> IdentifierErrorView {
    match fault {
        Fault::Utf8 { dimension, value } => IdentifierErrorView::DimensionUtf8 {
            element,
            value,
            dimension,
        },
        Fault::Parse { dimension, text } => IdentifierErrorView::DimensionParse {
            element,
            text,
            dimension,
        },
    }
}

/// The text of the last attribute under `key`, if there is one.
pub open spec fn last_text(attributes: Seq<AttributeView>, key: Seq<u8>) -> Option<Seq<char>>
    decreases attributes.len(),
{
    if attributes.len() == 0 {
        None
    } else if attributes.last().key == key {
        Some(decode_utf8(attributes.last().value))
    } else {
        last_text(attributes.drop_last(), key)
    }
}

/// The identity of an element: the fault of the first attribute at fault;
/// without a fault, the id, width and height that its attributes give, or
/// which of them they give where one is missing.
pub open spec fn identity(element: ElementView) -> Result<IdentifiersView, IdentifierErrorView> {
    match first_fault(element.attributes) {
        Some(f) => Err(blame(element, f)),
        None => {
            let width = last_text(element.attributes, WIDTH@);
            let height = last_text(element.attributes, HEIGHT@);
            let id = last_text(element.attributes, ID@);
            if width is Some && height is Some && id is Some {
                Ok(IdentifiersView { id: id->0, width: width->0, height: height->0 })
            } else {
                Err(IdentifierErrorView::MissingObjectIdentifier { element, width, height, id })
            }
        },
    }
}

/// A fault among the first attributes is the first fault of them all.
proof fn lemma_first_fault_prefix(attributes: Seq<AttributeView>, k: int)
    requires
        0 <= k <= attributes.len(),
        first_fault(attributes.take(k)) is Some,
    ensures
        first_fault(attributes) == first_fault(attributes.take(k)),
    decreases attributes.len() - k,
{
    if k < attributes.len() {
        assert(attributes.take(k + 1).drop_last() == attributes.take(k));
        lemma_first_fault_prefix(attributes, k + 1);
    } else {
        assert(attributes.take(k) == attributes);
    }
}

impl Identifiers {
    /// An identity with this id and the dimensions `0`.
    pub fn zeros_with_id(id: &str) -> (ident: Identifiers)
        ensures
            ident@ == (IdentifiersView { id: id@, width: "0"@, height: "0"@ }),
    {
        Identifiers { id: id.to_owned(), width: "0".to_owned(), height: "0".to_owned() }
    }

    /// A copy of this identity.
    pub fn duplicate(&self) -> (copy: Identifiers)
        ensures
            copy@ == self@,
    {
        Identifiers {
            id: self.id.clone(),
            width: self.width.clone(),
            height: self.height.clone(),
        }
    }

    /// Reads the identity of an element off its attributes, in one pass.
    pub fn from_elem(elem: &Element) -> (found: Result<Identifiers, IdentifierError>)
        ensures
            match found {
                Ok(ident) => identity(elem@) == Ok::<IdentifiersView, IdentifierErrorView>(ident@),
                Err(error) => identity(elem@) == Err::<IdentifiersView, IdentifierErrorView>(
                    error@,
                ),
            },
    {
        let mut width: Option<String> = None;
        let mut height: Option<String> = None;
        let mut id: Option<String> = None;
        let ghost all = elem@.attributes;
        let mut i: usize = 0;
        while i < elem.attributes.len()
            invariant
                i <= elem.attributes.len(),
                all == elem@.attributes,
                first_fault(all.take(i as int)) is None,
                text_view(width) == last_text(all.take(i as int), WIDTH@),
                text_view(height) == last_text(all.take(i as int), HEIGHT@),
                text_view(id) == last_text(all.take(i as int), ID@),
            decreases elem.attributes.len() - i,
        {
            let attribute = &elem.attributes[i];
            proof {
                assert(all.take(i + 1).drop_last() == all.take(i as int));
                assert(all.take(i + 1).last() == attribute@);
                if fault(attribute@) is Some {
                    lemma_first_fault_prefix(all, i + 1);
                }
            }
            if bytes_eq(attribute.key.as_slice(), WIDTH.as_slice()) {
                match String::from_utf8(copy_bytes(&attribute.value)) {
                    Err(_) => {
                        return Err(
                            IdentifierError::DimensionUtf8(
                                DimensionUtf8 {
                                    element: elem.duplicate(),
                                    value: copy_bytes(&attribute.value),
                                    dimension: DimensionOrId::Width,
                                },
                            ),
                        );
                    },
                    Ok(text) => {
                        if !is_number_text(attribute.value.as_slice()) {
                            return Err(
                                IdentifierError::DimensionParse(
                                    DimensionParse {
                                        element: elem.duplicate(),
                                        text,
                                        dimension: DimensionOrId::Width,
                                    },
                                ),
                            );
                        }
                        width = Some(text);
                    },
                }
            } else if bytes_eq(attribute.key.as_slice(), HEIGHT.as_slice()) {
                match String::from_utf8(copy_bytes(&attribute.value)) {
                    Err(_) => {
                        return Err(
                            IdentifierError::DimensionUtf8(
                                DimensionUtf8 {
                                    element: elem.duplicate(),
                                    value: copy_bytes(&attribute.value),
                                    dimension: DimensionOrId::Height,
                                },
                            ),
                        );
                    },
                    Ok(text) => {
                        if !is_number_text(attribute.value.as_slice()) {
                            return Err(
                                IdentifierError::DimensionParse(
                                    DimensionParse {
                                        element: elem.duplicate(),
                                        text,
                                        dimension: DimensionOrId::Height,
                                    },
                                ),
                            );
                        }
                        height = Some(text);
                    },
                }
            } else if bytes_eq(attribute.key.as_slice(), ID.as_slice()) {
                match String::from_utf8(copy_bytes(&attribute.value)) {
                    Err(_) => {
                        return Err(
                            IdentifierError::DimensionUtf8(
                                DimensionUtf8 {
                                    element: elem.duplicate(),
                                    value: copy_bytes(&attribute.value),
                                    dimension: DimensionOrId::Id,
                                },
                            ),
                        );
                    },
                    Ok(text) => {
                        id = Some(text);
                    },
                }
            }
            i = i + 1;
        }
        assert(all.take(i as int) == all);
        match (width, height, id) {
            (Some(width), Some(height), Some(id)) => Ok(Identifiers { id, width, height }),
            (width, height, id) => Err(
                IdentifierError::MissingObjectIdentifier(
                    MissingObjectIdentifier { element: elem.duplicate(), width, height, id },
                ),
            ),
        }
    }
}

/// A rectangle: a placeholder that an image can take the place of.
#[derive(Debug, Clone, PartialEq, Eq)]
pub struct Rectangle {
    pub ident: Identifiers,
    pub element: Element,
}

/// An image, embedded in its `xlink:href` attribute.
#[derive(Debug, Clone, PartialEq, Eq)]
pub struct Image {
    pub ident: Identifiers,
    pub element: Element,
}

/// Mathematical model of a [`Rectangle`] and of an [`Image`].
pub struct ShapeView {
    pub ident: IdentifiersView,
    pub element: ElementView,
}

impl View for Rectangle {
    type V = ShapeView;

    open spec fn view(&self) -> ShapeView {
        ShapeView { ident: self.ident@, element: self.element@ }
    }
}

impl View for Image {
    type V = ShapeView;

    open spec fn view(&self) -> ShapeView {
        ShapeView { ident: self.ident@, element: self.element@ }
    }
}

/// The attributes of the image that takes the place of a rectangle with
/// `attributes`: those not under `style`, in their order, then the payload
/// under `xlink:href`.
pub open spec fn promoted(attributes: Seq<AttributeView>, payload: Seq<u8>) -> Seq<AttributeView> {
    without_key(attributes, STYLE@).push(AttributeView { key: HREF@, value: payload })
}

/// The attributes of an image with `attributes` once it holds `payload`:
/// those not under `xlink:href`, in their order, then the payload under
/// `xlink:href`.
pub open spec fn updated(attributes: Seq<AttributeView>, payload: Seq<u8>) -> Seq<AttributeView> {
    without_key(attributes, HREF@).push(AttributeView { key: HREF@, value: payload })
}

impl Rectangle {
    /// A rectangle with this identity and a bare `rect` element.
    pub fn from_ident(ident: Identifiers) -> (rectangle: Rectangle)
        ensures
            rectangle@.ident == ident@,
            rectangle@.element.name == RECT@,
            rectangle@.element.attributes.len() == 0,
    {
        Rectangle { ident, element: Element::new(slice_to_vec(RECT.as_slice()), Vec::new()) }
    }

    /// The image that takes the place of this rectangle: an `image` element with
    /// the attributes [`promoted`] and the identity of the rectangle, which
    /// itself stays as it is.
    pub fn set_image(&mut self, base64_encoded: EncodedImage) -> (image: Image)
        ensures
            final(self)@ == old(self)@,
            image@.ident == old(self)@.ident,
            image@.element.name == IMAGE@,
            image@.element.attributes == promoted(
                old(self)@.element.attributes,
                base64_encoded.bytes(),
            ),
            image@.element.content == tag_content(image@.element.name, image@.element.attributes),
    {
        let added = Attribute::new(
            slice_to_vec(HREF.as_slice()),
            slice_to_vec(base64_encoded.as_slice()),
        );
        let element = self.element.replaced(
            slice_to_vec(IMAGE.as_slice()),
            STYLE.as_slice(),
            added,
        );
        Image { ident: self.ident.duplicate(), element }
    }
}

impl Image {
    /// An image with this identity and a bare `image` element.
    pub fn from_ident(ident: Identifiers) -> (image: Image)
        ensures
            image@.ident == ident@,
            image@.element.name == IMAGE@,
            image@.element.attributes.len() == 0,
    {
        Image { ident, element: Element::new(slice_to_vec(IMAGE.as_slice()), Vec::new()) }
    }

    /// Puts `base64_encoded` in the place of the payload this image holds: the
    /// attributes become [`updated`]; name and identity stay.
    pub fn update_image(&mut self, base64_encoded: EncodedImage)
        ensures
            final(self)@.ident == old(self)@.ident,
            final(self)@.element.name == old(self)@.element.name,
            final(self)@.element.attributes == updated(
                old(self)@.element.attributes,
                base64_encoded.bytes(),
            ),
            final(self)@.element.content == tag_content(
                final(self)@.element.name,
                final(self)@.element.attributes,
            ),
    {
        let added = Attribute::new(
            slice_to_vec(HREF.as_slice()),
            slice_to_vec(base64_encoded.as_slice()),
        );
        let element = self.element.replaced(copy_bytes(&self.element.name), HREF.as_slice(), added);
        self.element = element;
    }
}

/// An object of a layer.
#[derive(Debug, Clone, PartialEq, Eq)]
pub enum Object {
    Rectangle(Rectangle),
    Image(Image),
    /// Anything else: text, nested tags, shapes of other kinds. It has no
    /// identity and is written back as it came.
    Other(Event),
}

/// Mathematical model of an [`Object`].
pub enum ObjectView {
    Rectangle(ShapeView),
    Image(ShapeView),
    Other(EventView),
}

impl View for Object {
    type V = ObjectView;

    open spec fn view(&self) -> ObjectView {
        match *self {
            Object::Rectangle(r) => ObjectView::Rectangle(r@),
            Object::Image(i) => ObjectView::Image(i@),
            Object::Other(e) => ObjectView::Other(e@),
        }
    }
}

impl DeepView for Object {
    type V = ObjectView;

    open spec fn deep_view(&self) -> ObjectView {
        self@
    }
}

impl ObjectView {
    /// The event this object is written as.
    pub open spec fn event(self) -> EventView {
        match self {
            ObjectView::Rectangle(r) => EventView::Empty(r.element),
            ObjectView::Image(i) => EventView::Empty(i.element),
            ObjectView::Other(e) => e,
        }
    }

    /// The identity of a rectangle or an image; other objects have none.
    pub open spec fn ident(self) -> Option<IdentifiersView> {
        match self {
            ObjectView::Rectangle(r) => Some(r.ident),
            ObjectView::Image(i) => Some(i.ident),
            ObjectView::Other(_) => None,
        }
    }
}

/// What a self-closing element is as an object of a layer: an `image` or a
/// `rect` with an identity is an image or a rectangle, one without fails, and
/// any other element is carried as it is.
pub open spec fn classify(element: ElementView) -> Result<ObjectView, IdentifierErrorView> {
    if element.name == IMAGE@ {
        match identity(element) {
            Ok(ident) => Ok(ObjectView::Image(ShapeView { ident, element })),
            Err(error) => Err(error),
        }
    } else if element.name == RECT@ {
        match identity(element) {
            Ok(ident) => Ok(ObjectView::Rectangle(ShapeView { ident, element })),
            Err(error) => Err(error),
        }
    } else {
        Ok(ObjectView::Other(EventView::Empty(element)))
    }
}

impl Object {
    /// The event this object is written as.
    pub fn into_event(self) -> (event: Event)
        ensures
            event@ == self@.event(),
    {
        match self {
            Object::Rectangle(rect) => Event::Empty(rect.element),
            Object::Image(image) => Event::Empty(image.element),
            Object::Other(object) => object,
        }
    }

    /// A copy of this object.
    pub fn duplicate(&self) -> (copy: Object)
        ensures
            copy@ == self@,
    {
        match self {
            Object::Rectangle(r) => Object::Rectangle(
                Rectangle { ident: r.ident.duplicate(), element: r.element.duplicate() },
            ),
            Object::Image(i) => Object::Image(
                Image { ident: i.ident.duplicate(), element: i.element.duplicate() },
            ),
            Object::Other(e) => Object::Other(e.duplicate()),
        }
    }
}

/// Maps a self-closing element inside a layer to the object it stands for.
pub fn object(element: Element) -> (made: Result<Object, IdentifierError>)
    ensures
        match made {
            Ok(object) => classify(element@) == Ok::<ObjectView, IdentifierErrorView>(object@),
            Err(error) => classify(element@) == Err::<ObjectView, IdentifierErrorView>(error@),
        },
{
    if element.is_named(IMAGE.as_slice()) {
        match Identifiers::from_elem(&element) {
            Ok(ident) => Ok(Object::Image(Image { ident, element })),
            Err(error) => Err(error),
        }
    } else if element.is_named(RECT.as_slice()) {
        match Identifiers::from_elem(&element) {
            Ok(ident) => Ok(Object::Rectangle(Rectangle { ident, element })),
            Err(error) => Err(error),
        }
    } else {
        Ok(Object::Other(Event::Empty(element)))
    }
}

/// The text every payload starts with: `data:image/png;base64,`.
pub const PNG_PREFIX: [u8; 22] = [
    0x64,
    0x61,
    0x74,
    0x61,
    0x3a,
    0x69,
    0x6d,
    0x61,
    0x67,
    0x65,
    0x2f,
    0x70,
    0x6e,
    0x67,
    0x3b,
    0x62,
    0x61,
    0x73,
    0x65,
    0x36,
    0x34,
    0x2c,
];

/// The payload that embeds a PNG file with these bytes.
pub open spec fn payload_of(bytes: Seq<u8>) -> Seq<u8> {
    PNG_PREFIX@ + base64_standard(bytes)
}

/// A PNG image in the form in which a document embeds it: the prefix
/// `data:image/png;base64,` and the bytes of the file in base64.
pub struct EncodedImage {
    base64_bytes: Vec<u8>,
}

impl EncodedImage {
    /// The payload.
    pub closed spec fn bytes(&self) -> Seq<u8> {
        self.base64_bytes@
    }

    /// The payload.
    pub fn as_slice(&self) -> (payload: &[u8])
        ensures
            payload@ == self.bytes(),
    {
        self.base64_bytes.as_slice()
    }

    /// Encodes the bytes of a file read from `path`, the format of the file as
    /// `format` says: a PNG is encoded; an image in another format is refused
    /// as wrongly encoded and a file of unknown format as of unknown type,
    /// each with the path.
    pub fn from_format(format: Format, bytes: &[u8], path: PathBuf) -> (made: Result<
        EncodedImage,
        EncodingError,
    >)
        ensures
            match made {
                Ok(image) => format == Format::Png && image.bytes() == payload_of(bytes@),
                Err(EncodingError::UnknownMime(e)) => format == Format::Unknown && e.path == path,
                Err(EncodingError::WrongEncoding(e)) => format == Format::Other && e.path == path,
                Err(_) => false,
            },
    {
        match format {
            Format::Unknown => Err(EncodingError::UnknownMime(UnknownMime { path })),
            Format::Other => Err(EncodingError::WrongEncoding(WrongEncoding { path })),
            Format::Png => {
                let mut base64_bytes = slice_to_vec(PNG_PREFIX.as_slice());
                let mut encoded = encode_base64(bytes);
                base64_bytes.append(&mut encoded);
                Ok(EncodedImage { base64_bytes })
            },
        }
    }

    /// Encodes the bytes of a file read from `path`. Bytes that start like no
    /// known image format are refused as of unknown type, those of an image
    /// that is not a PNG as wrongly encoded, each with the path.
    pub fn from_bytes(bytes: &[u8], path: PathBuf) -> (made: Result<EncodedImage, EncodingError>)
        ensures
            match made {
                Ok(image) => is_png(bytes@) && image.bytes() == payload_of(bytes@),
                Err(EncodingError::UnknownMime(e)) => !is_png(bytes@) && !is_known_format(bytes@)
                    && e.path == path,
                Err(EncodingError::WrongEncoding(e)) => !is_png(bytes@) && is_known_format(bytes@)
                    && e.path == path,
                Err(_) => false,
            },
    {
        EncodedImage::from_format(guess_format(bytes), bytes, path)
    }
}

} // verus!
