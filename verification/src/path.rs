//! The verbs a path is stored as, and the winding and convexity of its contours.
use vstd::prelude::*;

verus! {

/// Specifies whether a shape is solid or a hole when adding it to a path.
///
/// The default value is `Solid`.
#[derive(Copy, Clone, Debug, PartialEq, Eq, Structural, PartialOrd)]
pub enum Solidity {
    /// The shape is solid (filled).
    Solid,
    /// The shape is a hole (not filled).
    Hole,
}

impl Default for Solidity {
    fn default() -> (r: Self)
        ensures
            r == Solidity::Solid,
    {
        Solidity::Solid
    }
}

/// The compact form a path stores each of its verbs in; the coordinates
/// live in a separate buffer.
#[derive(Copy, Clone, Debug, PartialEq, Eq, Structural)]
pub enum PackedVerb {
    /// Starts a new sub-path at one point.
    MoveTo,
    /// Continues with a line to one point.
    LineTo,
    /// Continues with a cubic bezier through two control points to a third.
    BezierTo,
    /// Marks the current sub-path solid.
    Solid,
    /// Marks the current sub-path a hole.
    Hole,
    /// Closes the current sub-path.
    Close,
}

/// Whether a flattened contour is convex.
#[derive(Copy, Clone, Debug, PartialEq, Eq, Structural)]
pub enum Convexity {
    /// The contour is concave (or self-intersecting).
    Concave,
    /// The contour is convex.
    Convex,
    /// Not determined yet.
    Unknown,
}

impl Default for Convexity {
    fn default() -> (r: Self)
        ensures
            r == Convexity::Unknown,
    {
        Convexity::Unknown
    }
}

} // verus!
