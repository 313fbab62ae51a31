//! Glyph render styles and the errors of the font manager.
use vstd::prelude::*;

verus! {

/// How glyphs are rasterized: filled, or stroked with a line width in pixels.
#[derive(Copy, Clone, Hash, PartialEq, Eq, Structural, Debug)]
pub enum RenderStyle {
    /// Glyphs are filled.
    Fill,
    /// Glyphs are stroked.
    Stroke {
        /// The stroke width in pixels.
        line_width: u32,
    },
}

impl Default for RenderStyle {
    fn default() -> (r: Self)
        ensures
            r == RenderStyle::Fill,
    {
        Self::Fill
    }
}

/// The errors of the font manager.
#[derive(Debug)]
pub enum FontManagerError {
    /// A general error with a message.
    GeneralError(String),
    /// No font is registered under the requested name.
    FontNotFound,
    /// An I/O error while reading a font.
    IoError(std::io::Error),
}

impl From<std::io::Error> for FontManagerError {
    fn from(error: std::io::Error) -> (r: Self) {
        Self::IoError(error)
    }
}

impl vstd::std_specs::convert::FromSpecImpl<std::io::Error> for FontManagerError {
    open spec fn obeys_from_spec() -> bool {
        true
    }

    open spec fn from_spec(v: std::io::Error) -> Self {
        FontManagerError::IoError(v)
    }
}

} // verus!
