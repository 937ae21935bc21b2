use svg_mesh::paint::{
    convert_stroke, fallback_color, resolve_fill, CapStyle, GpuColor, JoinStyle, StrokeOptions,
    MITER_LIMIT, TOLERANCE,
};
use svg_mesh::scene::{Color, Fill, LineCap, LineJoin, Paint, Stroke};

fn red() -> Paint {
    Paint::Color(Color { red: 255, green: 0, blue: 0 })
}

#[test]
fn fallback_is_transparent_black() {
    assert_eq!(fallback_color(), GpuColor { red: 0, green: 0, blue: 0, alpha: 0 });
}

#[test]
fn tolerance_is_a_tenth() {
    assert_eq!(TOLERANCE, 0.1f32.to_bits());
    assert_eq!(TOLERANCE, 0x3DCC_CCCD);
}

#[test]
fn miter_limit_is_four() {
    assert_eq!(MITER_LIMIT, 4.0f32.to_bits());
}

#[test]
fn solid_fill_keeps_channels_and_opacity() {
    let fill = Fill { paint: Paint::Color(Color { red: 10, green: 20, blue: 30 }), opacity: 127 };
    assert_eq!(resolve_fill(&fill), GpuColor { red: 10, green: 20, blue: 30, alpha: 127 });
}

#[test]
fn opaque_and_transparent_fills() {
    let opaque = Fill { paint: red(), opacity: 255 };
    let clear = Fill { paint: red(), opacity: 0 };
    assert_eq!(resolve_fill(&opaque), GpuColor { red: 255, green: 0, blue: 0, alpha: 255 });
    assert_eq!(resolve_fill(&clear), GpuColor { red: 255, green: 0, blue: 0, alpha: 0 });
}

#[test]
fn linked_fill_falls_back() {
    let fill = Fill { paint: Paint::Link, opacity: 255 };
    assert_eq!(resolve_fill(&fill), GpuColor { red: 0, green: 0, blue: 0, alpha: 0 });
}

#[test]
fn stroke_options_follow_the_stroke() {
    let stroke = Stroke {
        paint: Paint::Color(Color { red: 1, green: 2, blue: 3 }),
        opacity: 200,
        width: 2.5f32.to_bits(),
        linecap: LineCap::Square,
        linejoin: LineJoin::Round,
    };
    let (color, options) = convert_stroke(&stroke);
    assert_eq!(color, GpuColor { red: 1, green: 2, blue: 3, alpha: 200 });
    assert_eq!(
        options,
        StrokeOptions {
            start_cap: CapStyle::Square,
            end_cap: CapStyle::Square,
            line_join: JoinStyle::Round,
            line_width: 2.5f32.to_bits(),
            miter_limit: 4.0f32.to_bits(),
            tolerance: 0.1f32.to_bits(),
        }
    );
}

#[test]
fn linked_stroke_falls_back_and_keeps_its_style() {
    let stroke = Stroke {
        paint: Paint::Link,
        opacity: 255,
        width: 1.0f32.to_bits(),
        linecap: LineCap::Round,
        linejoin: LineJoin::Bevel,
    };
    let (color, options) = convert_stroke(&stroke);
    assert_eq!(color, fallback_color());
    assert_eq!(options.start_cap, CapStyle::Round);
    assert_eq!(options.end_cap, CapStyle::Round);
    assert_eq!(options.line_join, JoinStyle::Bevel);
    assert_eq!(options.line_width, 1.0f32.to_bits());
}

#[test]
fn every_cap_has_its_style() {
    let caps = [
        (LineCap::Butt, CapStyle::Butt),
        (LineCap::Square, CapStyle::Square),
        (LineCap::Round, CapStyle::Round),
    ];
    for (cap, style) in caps {
        let stroke =
            Stroke { paint: red(), opacity: 255, width: 0, linecap: cap, linejoin: LineJoin::Miter };
        let (_, options) = convert_stroke(&stroke);
        assert_eq!(options.start_cap, style);
        assert_eq!(options.end_cap, style);
    }
}

#[test]
fn every_join_has_its_style() {
    let joins = [
        (LineJoin::Miter, JoinStyle::Miter),
        (LineJoin::Bevel, JoinStyle::Bevel),
        (LineJoin::Round, JoinStyle::Round),
    ];
    for (join, style) in joins {
        let stroke =
            Stroke { paint: red(), opacity: 255, width: 0, linecap: LineCap::Butt, linejoin: join };
        let (_, options) = convert_stroke(&stroke);
        assert_eq!(options.line_join, style);
        assert_ne!(options.line_join, JoinStyle::MiterClip);
    }
}
