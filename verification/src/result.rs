use crate::symbol::SymbolId;
use vstd::prelude::*;

verus! {

/// `std::io::Error`, carried through unopened.
#[verifier::external_type_specification]
#[verifier::external_body]
pub struct ExIoError(std::io::Error);

/// `image::ImageError`, carried through unopened.
#[verifier::external_type_specification]
#[verifier::external_body]
pub struct ExImageError(image::ImageError);

/// Everything that decoding or rendering a SymbolArt can fail with.
#[derive(Debug)]
pub enum SARError {
    /// The signature is not `sar`, or the format tag is unknown.
    InvalidFileHeader,
    /// The decoded body ends before the data that its header announces.
    Truncated,
    /// The header's size byte names no known canvas size.
    InvalidSize(u8),
    /// The compressed body is not a valid PRS stream.
    IoError(std::io::Error),
    /// No atlas sheet holds the symbol.
    SymbolNotFound(SymbolId),
    /// A sprite sheet could not be decoded.
    ImageError(image::ImageError),
    /// No projective transform maps the source square (first) onto the
    /// layer's corners (second); both in the order top-left, top-right,
    /// bottom-right, bottom-left and in unscaled canvas coordinates.
    ProjectionError([(u32, u32); 4], [(u32, u32); 4]),
}

} // verus!
