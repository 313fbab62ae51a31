//! Shader selection codes and the vertex ranges a draw call reads.
use vstd::prelude::*;

use crate::image::ImageId;

verus! {

/// Represents a drawable object: the ranges of the vertex buffer holding its
/// fill and its stroke, as (first vertex, vertex count).
#[derive(Copy, Clone, Debug)]
pub struct Drawable {
    /// The fill triangles, if any.
    pub fill_verts: Option<(usize, usize)>,
    /// The stroke triangle strip, if any.
    pub stroke_verts: Option<(usize, usize)>,
}

impl Default for Drawable {
    fn default() -> (r: Self)
        ensures
            r.fill_verts is None,
            r.stroke_verts is None,
    {
        Drawable { fill_verts: None, stroke_verts: None }
    }
}

/// Represents different render targets (screen or image).
#[derive(Copy, Clone, Debug, Eq, Hash, Ord, PartialOrd)]
pub enum RenderTarget {
    /// Render to the screen.
    Screen,
    /// Render to a specific image.
    Image(ImageId),
}

impl PartialEq for RenderTarget {
    fn eq(&self, other: &Self) -> (r: bool) {
        match (self, other) {
            (RenderTarget::Screen, RenderTarget::Screen) => true,
            (RenderTarget::Image(a), RenderTarget::Image(b)) => a == b,
            _ => false,
        }
    }
}

impl vstd::std_specs::cmp::PartialEqSpecImpl for RenderTarget {
    open spec fn obeys_eq_spec() -> bool {
        true
    }

    open spec fn eq_spec(&self, other: &Self) -> bool {
        *self == *other
    }
}

/// Represents different types of shaders used by the renderer.
///
/// The default value is `FillGradient`.
#[derive(Copy, Clone, Debug, PartialEq, Eq, Structural, Hash)]
pub enum ShaderType {
    /// Fill gradient shader.
    FillGradient,
    /// Fill image shader.
    FillImage,
    /// Stencil shader.
    Stencil,
    /// Fill image gradient shader.
    FillImageGradient,
    /// Filter image shader.
    FilterImage,
    /// Fill color shader.
    FillColor,
    /// Texture copy unclipped shader.
    TextureCopyUnclipped,
    /// Fill color shader without clipping, used for `clear_rect()`
    FillColorUnclipped,
    /// Fill conic gradient shader.
    FillGradientConic,
    /// Fill image conic gradient shader.
    FillImageGradientConic,
    /// Color-matrix image filter shader (`feColorMatrix` / CSS color functions).
    FilterImageColorMatrix,
    /// Fill two-point (independently centered) radial gradient shader: the
    /// general Canvas `createRadialGradient(x0, y0, r0, x1, y1, r1)` form.
    FillGradientTwoPointRadial,
    /// Fill image two-point radial gradient shader (multi-stop LUT variant).
    FillImageGradientTwoPointRadial,
    /// Turbulence generator shader (SVG `feTurbulence`).
    FilterImageTurbulence,
    /// sRGB transfer-curve shader: linearRGB to sRGB, or the reverse.
    FilterImageTransfer,
    /// Blend shader (SVG `feBlend`): the image over the backdrop bound in the
    /// glyph-texture slot, with one of the sixteen blend modes.
    FilterImageBlend,
    /// Coverage accumulation: an edge's signed area per pixel.
    CoverageAccumulate,
}

impl Default for ShaderType {
    fn default() -> (r: Self)
        ensures
            r == ShaderType::FillGradient,
    {
        ShaderType::FillGradient
    }
}

/// The code the shaders know each shader type by.
pub open spec fn shader_code(shader: ShaderType) -> u8 {
    match shader {
        ShaderType::FillGradient => 0,
        ShaderType::FillImage => 1,
        ShaderType::Stencil => 2,
        ShaderType::FillImageGradient => 3,
        ShaderType::FilterImage => 4,
        ShaderType::FillColor => 5,
        ShaderType::TextureCopyUnclipped => 6,
        ShaderType::FillColorUnclipped => 7,
        ShaderType::FillGradientConic => 8,
        ShaderType::FillImageGradientConic => 9,
        ShaderType::FilterImageColorMatrix => 10,
        ShaderType::FillGradientTwoPointRadial => 11,
        ShaderType::FillImageGradientTwoPointRadial => 12,
        ShaderType::FilterImageTurbulence => 13,
        ShaderType::FilterImageTransfer => 14,
        ShaderType::FilterImageBlend => 15,
        ShaderType::CoverageAccumulate => 16,
    }
}

impl ShaderType {
    /// Convert the shader type to a u8 value.
    pub fn to_u8(self) -> (r: u8)
        ensures
            r == shader_code(self),
            r <= 16,
    {
        match self {
            Self::FillGradient => 0,
            Self::FillImage => 1,
            Self::Stencil => 2,
            Self::FillImageGradient => 3,
            Self::FilterImage => 4,
            Self::FillColor => 5,
            Self::TextureCopyUnclipped => 6,
            Self::FillColorUnclipped => 7,
            Self::FillGradientConic => 8,
            Self::FillImageGradientConic => 9,
            Self::FilterImageColorMatrix => 10,
            Self::FillGradientTwoPointRadial => 11,
            Self::FillImageGradientTwoPointRadial => 12,
            Self::FilterImageTurbulence => 13,
            Self::FilterImageTransfer => 14,
            Self::FilterImageBlend => 15,
            Self::CoverageAccumulate => 16,
        }
    }
}

/// Distinct shader types have distinct codes, so a shader can tell them apart.
pub proof fn lemma_shader_codes_are_distinct(a: ShaderType, b: ShaderType)
    requires
        shader_code(a) == shader_code(b),
    ensures
        a == b,
{
}

} // verus!
