//! From the paints of a path to the colour of a primitive and the options
//! of a pass.

use vstd::prelude::*;

use crate::scene::{Fill, LineCap, LineJoin, Paint, Stroke};

verus! {

/// A colour as the GPU reads it: four channels of eight bits.
#[derive(Clone, Copy, Debug, PartialEq, Eq, Structural)]
pub struct GpuColor {
    pub red: u8,
    pub green: u8,
    pub blue: u8,
    pub alpha: u8,
}

/// The colour that stands in for a paint this crate cannot render: black,
/// fully transparent.
pub open spec fn spec_fallback_color() -> GpuColor {
    GpuColor { red: 0, green: 0, blue: 0, alpha: 0 }
}

/// The colour that stands in for a paint this crate cannot render: black,
/// fully transparent.
#[verifier::when_used_as_spec(spec_fallback_color)]
pub fn fallback_color() -> (color: GpuColor)
    ensures
        color == spec_fallback_color(),
{
    GpuColor { red: 0, green: 0, blue: 0, alpha: 0 }
}

/// The largest distance allowed between a curve and the line segments that
/// approximate it: the single-precision number nearest to 0.1.
pub const TOLERANCE: u32 = 0x3DCC_CCCD;

/// The miter limit of every stroke: the single-precision number 4.
pub const MITER_LIMIT: u32 = 0x4080_0000;

/// The shape of the two ends of a stroked sub-path.
#[derive(Clone, Copy, Debug, PartialEq, Eq, Structural)]
pub enum CapStyle {
    Butt,
    Square,
    Round,
}

/// The shape of a corner between two stroked edges.
#[derive(Clone, Copy, Debug, PartialEq, Eq, Structural)]
pub enum JoinStyle {
    Miter,
    MiterClip,
    Round,
    Bevel,
}

/// What a triangulator is told about a fill pass.
#[derive(Clone, Copy, Debug, PartialEq, Eq, Structural)]
pub struct FillOptions {
    pub tolerance: u32,
}

/// What a triangulator is told about a stroke pass. `line_width`,
/// `miter_limit` and `tolerance` are single-precision bit patterns.
#[derive(Clone, Copy, Debug, PartialEq, Eq, Structural)]
pub struct StrokeOptions {
    pub start_cap: CapStyle,
    pub end_cap: CapStyle,
    pub line_join: JoinStyle,
    pub line_width: u32,
    pub miter_limit: u32,
    pub tolerance: u32,
}

/// The colour of a paint at a given opacity: the paint's own channels and
/// the opacity as alpha where the paint is one colour, the fallback colour
/// where it is anything else.
pub open spec fn paint_color(paint: Paint, opacity: u8) -> GpuColor {
    match paint {
        Paint::Color(c) => GpuColor { red: c.red, green: c.green, blue: c.blue, alpha: opacity },
        Paint::Link => fallback_color(),
    }
}

pub open spec fn cap_style(cap: LineCap) -> CapStyle {
    match cap {
        LineCap::Butt => CapStyle::Butt,
        LineCap::Square => CapStyle::Square,
        LineCap::Round => CapStyle::Round,
    }
}

pub open spec fn join_style(join: LineJoin) -> JoinStyle {
    match join {
        LineJoin::Miter => JoinStyle::Miter,
        LineJoin::Bevel => JoinStyle::Bevel,
        LineJoin::Round => JoinStyle::Round,
    }
}

/// The options of the stroke pass of `s`: its width, its cap at both ends,
/// its join, and the fixed miter limit and tolerance.
pub open spec fn stroke_options(s: Stroke) -> StrokeOptions {
    StrokeOptions {
        start_cap: cap_style(s.linecap),
        end_cap: cap_style(s.linecap),
        line_join: join_style(s.linejoin),
        line_width: s.width,
        miter_limit: MITER_LIMIT,
        tolerance: TOLERANCE,
    }
}

fn resolve_paint(paint: Paint, opacity: u8) -> (color: GpuColor)
    ensures
        color == paint_color(paint, opacity),
{
    match paint {
        Paint::Color(c) => GpuColor { red: c.red, green: c.green, blue: c.blue, alpha: opacity },
        Paint::Link => fallback_color(),
    }
}

/// The colour that the interior of a path is drawn in.
pub fn resolve_fill(fill: &Fill) -> (color: GpuColor)
    ensures
        color == paint_color(fill.paint, fill.opacity),
{
    resolve_paint(fill.paint, fill.opacity)
}

/// The colour that the outline of a path is drawn in, and the options of
/// its stroke pass.
pub fn convert_stroke(s: &Stroke) -> (r: (GpuColor, StrokeOptions))
    ensures
        r.0 == paint_color(s.paint, s.opacity),
        r.1 == stroke_options(*s),
{
    let color = resolve_paint(s.paint, s.opacity);
    let linecap = match s.linecap {
        LineCap::Butt => CapStyle::Butt,
        LineCap::Square => CapStyle::Square,
        LineCap::Round => CapStyle::Round,
    };
    let linejoin = match s.linejoin {
        LineJoin::Miter => JoinStyle::Miter,
        LineJoin::Bevel => JoinStyle::Bevel,
        LineJoin::Round => JoinStyle::Round,
    };
    let opt = StrokeOptions {
        start_cap: linecap,
        end_cap: linecap,
        line_join: linejoin,
        line_width: s.width,
        miter_limit: MITER_LIMIT,
        tolerance: TOLERANCE,
    };
    (color, opt)
}

} // verus!
