//! A 2D vector drawing library loosely modeled on the HTML5 Canvas API.
//!
//! This crate holds the parts of the drawing library whose behaviour is
//! stated and proved: blend-state selection, colour parsing, image
//! bookkeeping, the stack of saved drawing states with its layers, clips and
//! depth limit, the clip planes of the render targets, the glyph shaping
//! loop and the sfnt table rewriter.
use vstd::prelude::*;

pub mod clip_planes;
pub mod color;
pub mod combining_class;
pub mod composite;
pub mod error;
pub mod font_manager;
pub mod image;
pub mod paint;
pub mod path;
pub mod renderer;
pub mod sfnt;
pub mod state_stack;
pub mod shaper;

pub use clip_planes::{ClipPlane, ClipPlanes};
pub use color::{hex_channels, hex_to_u8, ColorSpace};
pub use combining_class::CombiningClass;
pub use composite::{
    BlendFactor, CompositeOperation, CompositeOperationState, FillRule, LineCap, LineJoin, MaskKind,
};
pub use error::ErrorKind;
pub use font_manager::{FontManagerError, RenderStyle};
pub use image::{ImageFlags, ImageId, ImageInfo, ImageSource, PixelFormat, Size, TurbulenceKind};
pub use paint::GlyphTexture;
pub use path::{Convexity, PackedVerb, Solidity};
pub use renderer::{Drawable, RenderTarget, ShaderType};
pub use shaper::{GlyphInfo, ShaperError, ShaperSource};
pub use state_stack::{LayerEnded, Restored, StateStack, MAX_STATE_DEPTH};

verus! {

} // verus!
