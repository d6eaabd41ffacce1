//! Layered vector-graphics documents: locate placeholder shapes inside named
//! layers, swap encoded images in for them or toggle layer visibility, and
//! write the document back with every other token untouched.

pub mod codec;
pub mod document;
pub mod error;
pub mod event;
pub mod laws;
pub mod number;
pub mod object;
pub mod parse;
pub mod scan;
pub mod write;
pub mod xml;

pub use document::{IdIterator, Inkscape, Layer};
pub use error::{
    DimensionOrId, DimensionParse, DimensionUtf8, EncodingError, Error, IdentifierError,
    LayerBody, LayerError, LayerFooter, LayerHeader, LeadingEvents, MissingId, MissingLayerEnd,
    MissingLayerId, MissingLayerName, MissingObjectIdentifier, OpenFile, ParseLayer, ParseObject,
    ReadBytes, TrailingEvents, UnknownMime, WrongEncoding,
};
pub use object::EncodedImage;
