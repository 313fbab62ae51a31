//! Fill rules, stroke styles and the blend state that a composite operation selects.
use vstd::prelude::*;

verus! {

/// Determines the fill rule used when filling paths.
///
/// The fill rule defines how the interior of a shape is determined.
#[derive(Copy, Clone, Debug, PartialEq, Eq, Structural)]
pub enum FillRule {
    /// A point is inside the shape if a ray from it crosses the outline an odd number of times.
    EvenOdd,
    /// A point is inside the shape if the winding number around it is not zero (default).
    NonZero,
}

impl Default for FillRule {
    fn default() -> (r: Self)
        ensures
            r == FillRule::NonZero,
    {
        FillRule::NonZero
    }
}

/// Blend factors.
#[derive(Copy, Clone, Debug, PartialEq, Eq, Structural, PartialOrd, Hash)]
pub enum BlendFactor {
    /// Not all
    Zero,
    /// All use
    One,
    /// Using the source color
    SrcColor,
    /// Minus the source color
    OneMinusSrcColor,
    /// Using the target color
    DstColor,
    /// Minus the target color
    OneMinusDstColor,
    /// Using the source alpha
    SrcAlpha,
    /// Minus the source alpha
    OneMinusSrcAlpha,
    /// Using the target alpha
    DstAlpha,
    /// Minus the target alpha
    OneMinusDstAlpha,
    /// Scale color by minimum of source alpha and destination alpha
    SrcAlphaSaturate,
}

/// Predefined composite operations.
#[derive(Copy, Clone, Debug, PartialEq, Eq, Structural, PartialOrd, Hash)]
pub enum CompositeOperation {
    /// Displays the source over the destination.
    SourceOver,
    /// Displays the source in the destination: only the part of the source inside the destination is shown.
    SourceIn,
    /// Only displays the part of the source that is outside the destination.
    SourceOut,
    /// Displays the source on top of the destination; the part of the source outside it is not shown.
    Atop,
    /// Displays the destination over the source.
    DestinationOver,
    /// Only displays the part of the destination that is inside the source.
    DestinationIn,
    /// Only displays the part of the destination that is outside the source.
    DestinationOut,
    /// Displays the destination on top of the source; the part of the destination outside it is not shown.
    DestinationAtop,
    /// Displays the source together with the destination; the overlap is rendered lighter.
    Lighter,
    /// Ignores the destination and just displays the source.
    Copy,
    /// Only the areas that belong to exactly one of source and destination are displayed.
    Xor,
}

/// The (source, destination) blend factors that Porter-Duff composition
/// assigns to each predefined operation.
pub open spec fn operation_factors(op: CompositeOperation) -> (BlendFactor, BlendFactor) {
    match op {
        CompositeOperation::SourceOver => (BlendFactor::One, BlendFactor::OneMinusSrcAlpha),
        CompositeOperation::SourceIn => (BlendFactor::DstAlpha, BlendFactor::Zero),
        CompositeOperation::SourceOut => (BlendFactor::OneMinusDstAlpha, BlendFactor::Zero),
        CompositeOperation::Atop => (BlendFactor::DstAlpha, BlendFactor::OneMinusSrcAlpha),
        CompositeOperation::DestinationOver => (BlendFactor::OneMinusDstAlpha, BlendFactor::One),
        CompositeOperation::DestinationIn => (BlendFactor::Zero, BlendFactor::SrcAlpha),
        CompositeOperation::DestinationOut => (BlendFactor::Zero, BlendFactor::OneMinusSrcAlpha),
        CompositeOperation::DestinationAtop => (BlendFactor::OneMinusDstAlpha, BlendFactor::SrcAlpha),
        CompositeOperation::Lighter => (BlendFactor::One, BlendFactor::One),
        CompositeOperation::Copy => (BlendFactor::One, BlendFactor::Zero),
        CompositeOperation::Xor => (BlendFactor::OneMinusDstAlpha, BlendFactor::OneMinusSrcAlpha),
    }
}

/// Determines how new ("source") data is displayed against existing ("destination") data.
#[derive(Copy, Clone, Debug, PartialEq, Eq, Structural, PartialOrd, Hash)]
pub struct CompositeOperationState {
    src_rgb: BlendFactor,
    src_alpha: BlendFactor,
    dst_rgb: BlendFactor,
    dst_alpha: BlendFactor,
}

impl CompositeOperationState {
    /// The blend factor applied to the source colour channels.
    pub closed spec fn spec_src_rgb(self) -> BlendFactor {
        self.src_rgb
    }

    /// The blend factor applied to the source alpha channel.
    pub closed spec fn spec_src_alpha(self) -> BlendFactor {
        self.src_alpha
    }

    /// The blend factor applied to the destination colour channels.
    pub closed spec fn spec_dst_rgb(self) -> BlendFactor {
        self.dst_rgb
    }

    /// The blend factor applied to the destination alpha channel.
    pub closed spec fn spec_dst_alpha(self) -> BlendFactor {
        self.dst_alpha
    }

    /// The state whose colour and alpha channels both blend by `src` and `dst`.
    pub open spec fn uniform(self, src: BlendFactor, dst: BlendFactor) -> bool {
        &&& self.spec_src_rgb() == src
        &&& self.spec_src_alpha() == src
        &&& self.spec_dst_rgb() == dst
        &&& self.spec_dst_alpha() == dst
    }

    /// Creates a new `CompositeOperationState` from the provided `CompositeOperation`
    pub fn new(op: CompositeOperation) -> (r: Self)
        ensures
            r.uniform(operation_factors(op).0, operation_factors(op).1),
    {
        let (sfactor, dfactor) = match op {
            CompositeOperation::SourceOver => (BlendFactor::One, BlendFactor::OneMinusSrcAlpha),
            CompositeOperation::SourceIn => (BlendFactor::DstAlpha, BlendFactor::Zero),
            CompositeOperation::SourceOut => (BlendFactor::OneMinusDstAlpha, BlendFactor::Zero),
            CompositeOperation::Atop => (BlendFactor::DstAlpha, BlendFactor::OneMinusSrcAlpha),
            CompositeOperation::DestinationOver => (BlendFactor::OneMinusDstAlpha, BlendFactor::One),
            CompositeOperation::DestinationIn => (BlendFactor::Zero, BlendFactor::SrcAlpha),
            CompositeOperation::DestinationOut => (BlendFactor::Zero, BlendFactor::OneMinusSrcAlpha),
            CompositeOperation::DestinationAtop => (BlendFactor::OneMinusDstAlpha, BlendFactor::SrcAlpha),
            CompositeOperation::Lighter => (BlendFactor::One, BlendFactor::One),
            CompositeOperation::Copy => (BlendFactor::One, BlendFactor::Zero),
            CompositeOperation::Xor => (BlendFactor::OneMinusDstAlpha, BlendFactor::OneMinusSrcAlpha),
        };

        Self { src_rgb: sfactor, src_alpha: sfactor, dst_rgb: dfactor, dst_alpha: dfactor }
    }

    /// Creates a new `CompositeOperationState` with source and destination blend factors.
    pub fn with_blend_factors(src_factor: BlendFactor, dst_factor: BlendFactor) -> (r: Self)
        ensures
            r.uniform(src_factor, dst_factor),
    {
        Self { src_rgb: src_factor, src_alpha: src_factor, dst_rgb: dst_factor, dst_alpha: dst_factor }
    }

    /// Creates a state with separate factors for the colour and the alpha channels.
    pub fn with_separate_blend_factors(
        src_rgb: BlendFactor,
        dst_rgb: BlendFactor,
        src_alpha: BlendFactor,
        dst_alpha: BlendFactor,
    ) -> (r: Self)
        ensures
            r.spec_src_rgb() == src_rgb,
            r.spec_dst_rgb() == dst_rgb,
            r.spec_src_alpha() == src_alpha,
            r.spec_dst_alpha() == dst_alpha,
    {
        Self { src_rgb, src_alpha, dst_rgb, dst_alpha }
    }

    /// The blend factor applied to the source colour channels.
    pub fn src_rgb(&self) -> (r: BlendFactor)
        ensures
            r == self.spec_src_rgb(),
    {
        self.src_rgb
    }

    /// The blend factor applied to the source alpha channel.
    pub fn src_alpha(&self) -> (r: BlendFactor)
        ensures
            r == self.spec_src_alpha(),
    {
        self.src_alpha
    }

    /// The blend factor applied to the destination colour channels.
    pub fn dst_rgb(&self) -> (r: BlendFactor)
        ensures
            r == self.spec_dst_rgb(),
    {
        self.dst_rgb
    }

    /// The blend factor applied to the destination alpha channel.
    pub fn dst_alpha(&self) -> (r: BlendFactor)
        ensures
            r == self.spec_dst_alpha(),
    {
        self.dst_alpha
    }
}

impl Default for CompositeOperationState {
    fn default() -> (r: Self)
        ensures
            r.uniform(BlendFactor::One, BlendFactor::OneMinusSrcAlpha),
    {
        Self::new(CompositeOperation::SourceOver)
    }
}

/// A predefined operation selects the same state as giving its factor pair
/// to `with_blend_factors`: the two constructors agree.
pub proof fn lemma_new_is_blend_factors_of_operation(
    op: CompositeOperation,
    a: CompositeOperationState,
    b: CompositeOperationState,
)
    requires
        a.uniform(operation_factors(op).0, operation_factors(op).1),
        b.uniform(operation_factors(op).0, operation_factors(op).1),
    ensures
        a == b,
{
}

/// A blend state is its four factors: states with the same factors are
/// equal, and equal states have the same factors.
pub proof fn lemma_state_is_its_factors(a: CompositeOperationState, b: CompositeOperationState)
    ensures
        a == b <==> (a.spec_src_rgb() == b.spec_src_rgb() && a.spec_src_alpha() == b.spec_src_alpha()
            && a.spec_dst_rgb() == b.spec_dst_rgb() && a.spec_dst_alpha() == b.spec_dst_alpha()),
{
}

/// `with_blend_factors` gives equal states exactly for equal factor pairs:
/// two states blending uniformly by `(s1, d1)` and by `(s2, d2)` are equal
/// if and only if `s1 == s2` and `d1 == d2`.
pub proof fn lemma_uniform_states_equal(
    a: CompositeOperationState,
    s1: BlendFactor,
    d1: BlendFactor,
    b: CompositeOperationState,
    s2: BlendFactor,
    d2: BlendFactor,
)
    requires
        a.uniform(s1, d1),
        b.uniform(s2, d2),
    ensures
        a == b <==> (s1 == s2 && d1 == d2),
{
}

/// Distinct predefined operations select distinct blend states: no two
/// operations share their (source, destination) factor pair.
pub proof fn lemma_operation_factors_injective(op1: CompositeOperation, op2: CompositeOperation)
    requires
        operation_factors(op1) == operation_factors(op2),
    ensures
        op1 == op2,
{
}

/// Determines the shape used to draw the end points of lines.
///
/// The default value is `Butt`.
#[derive(Copy, Clone, Debug, PartialEq, Eq, Structural, PartialOrd)]
pub enum LineCap {
    /// The ends of lines are squared off at the endpoints.
    Butt,
    /// The ends of lines are rounded.
    Round,
    /// The ends of lines are squared off by adding a box with an equal
    /// width and half the height of the line's thickness.
    Square,
}

impl Default for LineCap {
    fn default() -> (r: Self)
        ensures
            r == LineCap::Butt,
    {
        LineCap::Butt
    }
}

/// Determines the shape used to join two line segments where they meet.
///
/// The default value is `Miter`.
#[derive(Copy, Clone, Debug, PartialEq, Eq, Structural, PartialOrd)]
pub enum LineJoin {
    /// Connected segments are joined by extending their outside edges to
    /// connect at a single point; affected by the miter limit.
    Miter,
    /// Rounds off the corners by filling a sector of a disc centered at the
    /// common endpoint; its radius is the line width.
    Round,
    /// Fills a triangle between the common endpoint and the separate outside
    /// rectangular corners of each segment.
    Bevel,
}

impl Default for LineJoin {
    fn default() -> (r: Self)
        ensures
            r == LineJoin::Miter,
    {
        LineJoin::Miter
    }
}

/// How a layer mask's coverage is derived from its image.
#[derive(Clone, Copy, Debug, PartialEq, Eq, Structural)]
pub enum MaskKind {
    /// Coverage is the mask content's luminance (Rec. 709 weights on its
    /// sRGB values) times its alpha: SVG `mask`'s default `mask-type`.
    Luminance,
    /// Coverage is the mask content's own alpha channel.
    Alpha,
}

} // verus!
