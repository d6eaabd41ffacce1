//! What the `image` and `base64` crates compute on the bytes of a file.
//! Everything in this file is believed, not proved.

use vstd::prelude::*;

verus! {

/// What the first bytes of a file say of its format.
#[derive(Debug, Clone, Copy, PartialEq, Eq, Structural)]
pub enum Format {
    /// A PNG image.
    Png,
    /// An image in another format.
    Other,
    /// Nothing that is known.
    Unknown,
}

/// The eight bytes every PNG file starts with.
pub const PNG_SIGNATURE: [u8; 8] = [0x89, 0x50, 0x4e, 0x47, 0x0d, 0x0a, 0x1a, 0x0a];

/// Whether `bytes` starts with the signature of a PNG file.
pub open spec fn is_png(bytes: Seq<u8>) -> bool {
    bytes.len() >= 8 && bytes.take(8) == PNG_SIGNATURE@
}

/// Whether `image::guess_format` recognises the first bytes of `bytes` as the
/// signature of some format.
pub uninterp spec fn is_known_format(bytes: Seq<u8>) -> bool;

/// The standard base64 text of `bytes`, padded, as `base64::encode_config_buf`
/// writes it under `base64::STANDARD`.
pub uninterp spec fn base64_standard(bytes: Seq<u8>) -> Seq<u8>;

/// `image::guess_format`, which compares the first bytes with a table of
/// signatures and takes the first that matches. The PNG signature stands first
/// in that table, so PNG is the answer exactly for bytes that start with it;
/// whether another entry matches has a name.
#[verifier::external_body]
pub(crate) fn guess_format(bytes: &[u8]) -> (format: Format)
    ensures
        format == if is_png(bytes@) {
            Format::Png
        } else if is_known_format(bytes@) {
            Format::Other
        } else {
            Format::Unknown
        },
{
    match image::guess_format(bytes) {
        Ok(image::ImageFormat::Png) => Format::Png,
        Ok(_) => Format::Other,
        Err(_) => Format::Unknown,
    }
}

/// `base64::encode_config_buf` under `base64::STANDARD`, into an empty text.
#[verifier::external_body]
pub(crate) fn encode_base64(bytes: &[u8]) -> (text: Vec<u8>)
    ensures
        text@ == base64_standard(bytes@),
{
    let mut text = String::new();
    base64::encode_config_buf(bytes, base64::STANDARD, &mut text);
    text.into_bytes()
}

} // verus!
