//! The errors the canvas reports.
use vstd::prelude::*;

verus! {

/// The I/O error of the standard library, carried through unchanged.
#[verifier::external_type_specification]
#[verifier::external_body]
pub struct ExIoError(std::io::Error);

/// Enum representing different types of errors that can occur in the canvas.
#[derive(Debug)]
#[non_exhaustive]
pub enum ErrorKind {
    /// An unknown error occurred.
    UnknownError,
    /// A general error with a custom error message.
    GeneralError(String),
    /// An I/O error.
    IoError(std::io::Error),
    /// An error occurred while parsing a font.
    FontParseError,
    /// No font was found.
    NoFontFound,
    /// An error occurred while extracting font information.
    FontInfoExtractionError,
    /// The font size is too large for the font atlas.
    FontSizeTooLargeForAtlas,
    /// An error occurred while compiling a shader.
    ShaderCompileError(String),
    /// An error occurred while linking a shader.
    ShaderLinkError(String),
    /// An error related to a render target.
    RenderTargetError(String),
    /// The specified image ID was not found.
    ImageIdNotFound,
    /// An error occurred while updating an image, as it is out of bounds.
    ImageUpdateOutOfBounds,
    /// An error occurred while updating an image with a different format.
    ImageUpdateWithDifferentFormat,
    /// The specified image format is not supported.
    UnsupportedImageFormat,
}

impl From<std::io::Error> for ErrorKind {
    fn from(error: std::io::Error) -> (r: Self) {
        Self::IoError(error)
    }
}

impl vstd::std_specs::convert::FromSpecImpl<std::io::Error> for ErrorKind {
    open spec fn obeys_from_spec() -> bool {
        true
    }

    open spec fn from_spec(v: std::io::Error) -> Self {
        ErrorKind::IoError(v)
    }
}

} // verus!
