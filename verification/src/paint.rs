//! The glyph texture a text draw samples.
use vstd::prelude::*;

use crate::image::ImageId;

verus! {

/// The texture glyphs are drawn from: none, an alpha mask, or a colour
/// texture, each an image.
#[derive(Copy, Clone, Debug, PartialEq, Eq)]
pub enum GlyphTexture {
    /// No glyph texture.
    NoTexture,
    /// Glyph coverage in an alpha mask image.
    AlphaMask(ImageId),
    /// Coloured glyphs in a colour image.
    ColorTexture(ImageId),
}

impl Default for GlyphTexture {
    fn default() -> (r: Self)
        ensures
            r == GlyphTexture::NoTexture,
    {
        GlyphTexture::NoTexture
    }
}

impl GlyphTexture {
    /// The image the glyphs are drawn from, if any.
    pub fn image_id(&self) -> (r: Option<ImageId>)
        ensures
            r == (match *self {
                GlyphTexture::NoTexture => None::<ImageId>,
                GlyphTexture::AlphaMask(id) => Some(id),
                GlyphTexture::ColorTexture(id) => Some(id),
            }),
    {
        match self {
            GlyphTexture::NoTexture => None,
            GlyphTexture::AlphaMask(image_id) => Some(*image_id),
            GlyphTexture::ColorTexture(image_id) => Some(*image_id),
        }
    }
}

} // verus!
