//! The scene as the tessellator reads it: the nodes of a tree in the order
//! of a walk over it, and of each path its outline, its paints and its
//! transform.

use vstd::prelude::*;

verus! {

/// One step of a path outline, in absolute single-precision coordinates.
#[derive(Clone, Copy, Debug, PartialEq, Eq, Structural)]
pub enum PathSegment {
    MoveTo { x: u32, y: u32 },
    LineTo { x: u32, y: u32 },
    CurveTo { x1: u32, y1: u32, x2: u32, y2: u32, x: u32, y: u32 },
    ClosePath,
}

/// An opaque colour, without its opacity.
#[derive(Clone, Copy, Debug, PartialEq, Eq, Structural)]
pub struct Color {
    pub red: u8,
    pub green: u8,
    pub blue: u8,
}

/// What an outline is painted with.
#[derive(Clone, Copy, Debug, PartialEq, Eq, Structural)]
pub enum Paint {
    /// One colour all over.
    Color(Color),
    /// A reference to a paint server: a gradient or a pattern.
    Link,
}

/// How the interior of a path is painted. `opacity` is the opacity scaled to
/// `0..=255`, the fraction cut off.
#[derive(Clone, Copy, Debug, PartialEq, Eq, Structural)]
pub struct Fill {
    pub paint: Paint,
    pub opacity: u8,
}

#[derive(Clone, Copy, Debug, PartialEq, Eq, Structural)]
pub enum LineCap {
    Butt,
    Round,
    Square,
}

#[derive(Clone, Copy, Debug, PartialEq, Eq, Structural)]
pub enum LineJoin {
    Miter,
    Round,
    Bevel,
}

/// How the outline of a path is painted. `opacity` is scaled as in [`Fill`];
/// `width` is a single-precision bit pattern.
#[derive(Clone, Copy, Debug, PartialEq, Eq, Structural)]
pub struct Stroke {
    pub paint: Paint,
    pub opacity: u8,
    pub width: u32,
    pub linecap: LineCap,
    pub linejoin: LineJoin,
}

/// An affine map of the plane, `(x, y) -> (a x + c y + e, b x + d y + f)`.
/// Each entry is the bit pattern of an IEEE-754 single-precision number, and
/// two transforms are the same when all six patterns are.
#[derive(Clone, Copy, Debug, PartialEq, Eq, Structural)]
pub struct Transform {
    pub a: u32,
    pub b: u32,
    pub c: u32,
    pub d: u32,
    pub e: u32,
    pub f: u32,
}

/// A drawable node of the scene.
#[derive(Clone, Debug, PartialEq, Eq)]
pub struct Path {
    pub segments: Vec<PathSegment>,
    pub fill: Option<Fill>,
    pub stroke: Option<Stroke>,
    pub transform: Transform,
}

/// A node of the scene tree. Only paths are drawn; every other kind of node
/// (a group, a definition, an image) is passed over.
#[derive(Clone, Debug, PartialEq, Eq)]
pub enum Node {
    Path(Path),
    Other,
}

/// The nodes of a scene tree in the order of a depth-first walk from its
/// root.
#[derive(Clone, Debug, PartialEq, Eq)]
pub struct Scene {
    pub nodes: Vec<Node>,
}

} // verus!
