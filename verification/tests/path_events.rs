use svg_mesh::geom::Point;
use svg_mesh::path::{convert_path, PathEvent};
use svg_mesh::scene::{Path, PathSegment, Transform};

fn pt(x: f32, y: f32) -> Point {
    Point::new(x.to_bits(), y.to_bits())
}

fn move_to(x: f32, y: f32) -> PathSegment {
    PathSegment::MoveTo { x: x.to_bits(), y: y.to_bits() }
}

fn line_to(x: f32, y: f32) -> PathSegment {
    PathSegment::LineTo { x: x.to_bits(), y: y.to_bits() }
}

fn identity() -> Transform {
    Transform {
        a: 1.0f32.to_bits(),
        b: 0.0f32.to_bits(),
        c: 0.0f32.to_bits(),
        d: 1.0f32.to_bits(),
        e: 0.0f32.to_bits(),
        f: 0.0f32.to_bits(),
    }
}

fn outline(segments: Vec<PathSegment>) -> Path {
    Path { segments, fill: None, stroke: None, transform: identity() }
}

fn events(segments: Vec<PathSegment>) -> Vec<PathEvent> {
    let path = outline(segments);
    let mut it = convert_path(&path);
    let mut out = Vec::new();
    while let Some(e) = it.next() {
        out.push(e);
    }
    assert_eq!(it.next(), None);
    out
}

fn balanced(events: &[PathEvent]) -> bool {
    let mut open = false;
    for e in events {
        match e {
            PathEvent::Begin { .. } => {
                if open {
                    return false;
                }
                open = true;
            }
            PathEvent::Line { .. } | PathEvent::Cubic { .. } => {
                if !open {
                    return false;
                }
            }
            PathEvent::End { .. } => {
                if !open {
                    return false;
                }
                open = false;
            }
        }
    }
    !open
}

#[test]
fn origin_is_positive_zero() {
    assert_eq!(Point::zero(), pt(0.0, 0.0));
    assert_eq!(Point::zero(), Point { x: 0, y: 0 });
}

#[test]
fn empty_path_has_no_events() {
    assert_eq!(events(vec![]), vec![]);
}

#[test]
fn open_path_is_ended_unclosed() {
    let got = events(vec![move_to(0.0, 0.0), line_to(1.0, 0.0), line_to(1.0, 1.0)]);
    assert_eq!(
        got,
        vec![
            PathEvent::Begin { at: pt(0.0, 0.0) },
            PathEvent::Line { from: pt(0.0, 0.0), to: pt(1.0, 0.0) },
            PathEvent::Line { from: pt(1.0, 0.0), to: pt(1.0, 1.0) },
            PathEvent::End { last: pt(1.0, 1.0), first: pt(0.0, 0.0), close: false },
        ]
    );
}

#[test]
fn close_path_returns_to_the_first_point() {
    let got = events(vec![move_to(0.0, 0.0), line_to(1.0, 0.0), PathSegment::ClosePath]);
    assert_eq!(
        got,
        vec![
            PathEvent::Begin { at: pt(0.0, 0.0) },
            PathEvent::Line { from: pt(0.0, 0.0), to: pt(1.0, 0.0) },
            PathEvent::End { last: pt(0.0, 0.0), first: pt(0.0, 0.0), close: true },
        ]
    );
}

#[test]
fn second_move_to_ends_and_reopens() {
    let got = events(vec![move_to(0.0, 0.0), move_to(1.0, 1.0)]);
    assert_eq!(
        got,
        vec![
            PathEvent::Begin { at: pt(0.0, 0.0) },
            PathEvent::End { last: pt(0.0, 0.0), first: pt(0.0, 0.0), close: false },
            PathEvent::Begin { at: pt(1.0, 1.0) },
            PathEvent::End { last: pt(1.0, 1.0), first: pt(1.0, 1.0), close: false },
        ]
    );
}

#[test]
fn single_move_to_is_begun_and_ended() {
    let got = events(vec![move_to(0.0, 0.0)]);
    assert_eq!(
        got,
        vec![
            PathEvent::Begin { at: pt(0.0, 0.0) },
            PathEvent::End { last: pt(0.0, 0.0), first: pt(0.0, 0.0), close: false },
        ]
    );
}

#[test]
fn move_to_after_lines_ends_at_the_last_point() {
    let got = events(vec![
        move_to(0.0, 0.0),
        line_to(2.0, 0.0),
        move_to(5.0, 5.0),
        line_to(6.0, 5.0),
    ]);
    assert_eq!(
        got,
        vec![
            PathEvent::Begin { at: pt(0.0, 0.0) },
            PathEvent::Line { from: pt(0.0, 0.0), to: pt(2.0, 0.0) },
            PathEvent::End { last: pt(2.0, 0.0), first: pt(0.0, 0.0), close: false },
            PathEvent::Begin { at: pt(5.0, 5.0) },
            PathEvent::Line { from: pt(5.0, 5.0), to: pt(6.0, 5.0) },
            PathEvent::End { last: pt(6.0, 5.0), first: pt(5.0, 5.0), close: false },
        ]
    );
}

#[test]
fn opening_move_to_moves_the_pen() {
    let got = events(vec![move_to(5.0, 5.0), line_to(6.0, 6.0)]);
    assert_eq!(
        got,
        vec![
            PathEvent::Begin { at: pt(5.0, 5.0) },
            PathEvent::Line { from: pt(5.0, 5.0), to: pt(6.0, 6.0) },
            PathEvent::End { last: pt(6.0, 6.0), first: pt(5.0, 5.0), close: false },
        ]
    );
}

#[test]
fn single_move_to_away_from_the_origin_ends_where_it_began() {
    let got = events(vec![move_to(2.0, 3.0)]);
    assert_eq!(
        got,
        vec![
            PathEvent::Begin { at: pt(2.0, 3.0) },
            PathEvent::End { last: pt(2.0, 3.0), first: pt(2.0, 3.0), close: false },
        ]
    );
}

#[test]
fn edges_run_from_the_move_to_on() {
    let got = events(vec![
        move_to(1.0, 2.0),
        PathSegment::CurveTo {
            x1: 3.0f32.to_bits(),
            y1: 4.0f32.to_bits(),
            x2: 5.0f32.to_bits(),
            y2: 6.0f32.to_bits(),
            x: 7.0f32.to_bits(),
            y: 8.0f32.to_bits(),
        },
        line_to(9.0, 10.0),
    ]);
    assert_eq!(
        got,
        vec![
            PathEvent::Begin { at: pt(1.0, 2.0) },
            PathEvent::Cubic {
                from: pt(1.0, 2.0),
                ctrl1: pt(3.0, 4.0),
                ctrl2: pt(5.0, 6.0),
                to: pt(7.0, 8.0),
            },
            PathEvent::Line { from: pt(7.0, 8.0), to: pt(9.0, 10.0) },
            PathEvent::End { last: pt(9.0, 10.0), first: pt(1.0, 2.0), close: false },
        ]
    );
}

#[test]
fn close_right_after_move_to_ends_at_its_point() {
    let got = events(vec![move_to(4.0, 5.0), PathSegment::ClosePath]);
    assert_eq!(
        got,
        vec![
            PathEvent::Begin { at: pt(4.0, 5.0) },
            PathEvent::End { last: pt(4.0, 5.0), first: pt(4.0, 5.0), close: true },
        ]
    );
}

#[test]
fn move_to_after_close_opens_without_an_end() {
    let got = events(vec![
        move_to(1.0, 1.0),
        line_to(2.0, 1.0),
        PathSegment::ClosePath,
        move_to(3.0, 3.0),
        line_to(4.0, 3.0),
    ]);
    assert_eq!(
        got,
        vec![
            PathEvent::Begin { at: pt(1.0, 1.0) },
            PathEvent::Line { from: pt(1.0, 1.0), to: pt(2.0, 1.0) },
            PathEvent::End { last: pt(1.0, 1.0), first: pt(1.0, 1.0), close: true },
            PathEvent::Begin { at: pt(3.0, 3.0) },
            PathEvent::Line { from: pt(3.0, 3.0), to: pt(4.0, 3.0) },
            PathEvent::End { last: pt(4.0, 3.0), first: pt(3.0, 3.0), close: false },
        ]
    );
}

#[test]
fn curve_to_becomes_a_cubic() {
    let got = events(vec![
        move_to(0.0, 0.0),
        PathSegment::CurveTo {
            x1: 1.0f32.to_bits(),
            y1: 2.0f32.to_bits(),
            x2: 3.0f32.to_bits(),
            y2: 4.0f32.to_bits(),
            x: 5.0f32.to_bits(),
            y: 6.0f32.to_bits(),
        },
    ]);
    assert_eq!(
        got,
        vec![
            PathEvent::Begin { at: pt(0.0, 0.0) },
            PathEvent::Cubic {
                from: pt(0.0, 0.0),
                ctrl1: pt(1.0, 2.0),
                ctrl2: pt(3.0, 4.0),
                to: pt(5.0, 6.0),
            },
            PathEvent::End { last: pt(5.0, 6.0), first: pt(0.0, 0.0), close: false },
        ]
    );
}

#[test]
fn line_before_any_move_to_has_no_begin() {
    let got = events(vec![line_to(1.0, 0.0)]);
    assert_eq!(
        got,
        vec![
            PathEvent::Line { from: pt(0.0, 0.0), to: pt(1.0, 0.0) },
            PathEvent::End { last: pt(1.0, 0.0), first: pt(0.0, 0.0), close: false },
        ]
    );
    assert!(!balanced(&got));
}

#[test]
fn close_without_a_sub_path_is_a_lone_end() {
    let got = events(vec![PathSegment::ClosePath]);
    assert_eq!(
        got,
        vec![PathEvent::End { last: pt(0.0, 0.0), first: pt(0.0, 0.0), close: true }]
    );
    assert!(!balanced(&got));
}

#[test]
fn streams_of_continued_sub_paths_are_balanced() {
    let paths = vec![
        vec![],
        vec![move_to(0.0, 0.0)],
        vec![move_to(0.0, 0.0), move_to(1.0, 1.0), move_to(2.0, 2.0)],
        vec![move_to(0.0, 0.0), line_to(1.0, 0.0), PathSegment::ClosePath],
        vec![
            move_to(0.0, 0.0),
            line_to(1.0, 0.0),
            PathSegment::ClosePath,
            move_to(4.0, 4.0),
            line_to(5.0, 4.0),
            line_to(5.0, 5.0),
            move_to(7.0, 7.0),
            PathSegment::ClosePath,
        ],
    ];
    for segments in paths {
        assert!(balanced(&events(segments)));
    }
}

#[test]
fn streams_are_unbalanced_where_a_segment_finds_no_sub_path() {
    let paths = vec![
        vec![move_to(0.0, 0.0), PathSegment::ClosePath, line_to(1.0, 1.0)],
        vec![move_to(0.0, 0.0), PathSegment::ClosePath, PathSegment::ClosePath],
        vec![line_to(1.0, 1.0), move_to(0.0, 0.0)],
    ];
    for segments in paths {
        assert!(!balanced(&events(segments)));
    }
}

#[test]
fn collect_gives_what_next_would() {
    let segments = vec![
        move_to(0.0, 0.0),
        line_to(1.0, 0.0),
        move_to(2.0, 2.0),
        line_to(3.0, 2.0),
        PathSegment::ClosePath,
    ];
    let path = outline(segments.clone());
    assert_eq!(convert_path(&path).collect(), events(segments));
}

#[test]
fn collect_after_some_events_gives_the_rest() {
    let path = outline(vec![move_to(0.0, 0.0), line_to(1.0, 0.0), move_to(2.0, 2.0)]);
    let mut it = convert_path(&path);
    assert_eq!(it.next(), Some(PathEvent::Begin { at: pt(0.0, 0.0) }));
    assert_eq!(it.next(), Some(PathEvent::Line { from: pt(0.0, 0.0), to: pt(1.0, 0.0) }));
    assert_eq!(
        it.next(),
        Some(PathEvent::End { last: pt(1.0, 0.0), first: pt(0.0, 0.0), close: false })
    );
    assert_eq!(
        it.collect(),
        vec![
            PathEvent::Begin { at: pt(2.0, 2.0) },
            PathEvent::End { last: pt(2.0, 2.0), first: pt(2.0, 2.0), close: false },
        ]
    );
}

#[test]
fn line_after_close_starts_where_the_closed_sub_path_began() {
    let got = events(vec![
        move_to(1.0, 1.0),
        line_to(2.0, 1.0),
        PathSegment::ClosePath,
        line_to(5.0, 5.0),
    ]);
    assert_eq!(
        got,
        vec![
            PathEvent::Begin { at: pt(1.0, 1.0) },
            PathEvent::Line { from: pt(1.0, 1.0), to: pt(2.0, 1.0) },
            PathEvent::End { last: pt(1.0, 1.0), first: pt(1.0, 1.0), close: true },
            PathEvent::Line { from: pt(1.0, 1.0), to: pt(5.0, 5.0) },
            PathEvent::End { last: pt(5.0, 5.0), first: pt(1.0, 1.0), close: false },
        ]
    );
}

fn paired(events: &[PathEvent]) -> bool {
    let mut waits = false;
    for e in events {
        match e {
            PathEvent::Begin { .. } => {
                if waits {
                    return false;
                }
                waits = true;
            }
            PathEvent::Line { .. } | PathEvent::Cubic { .. } => waits = true,
            PathEvent::End { .. } => waits = false,
        }
    }
    !waits
}

#[test]
fn every_stream_pairs_its_begins_with_ends() {
    let paths = vec![
        vec![],
        vec![move_to(0.0, 0.0)],
        vec![line_to(1.0, 1.0)],
        vec![PathSegment::ClosePath],
        vec![line_to(1.0, 1.0), move_to(0.0, 0.0), move_to(2.0, 2.0)],
        vec![move_to(0.0, 0.0), PathSegment::ClosePath, line_to(1.0, 1.0)],
        vec![move_to(0.0, 0.0), PathSegment::ClosePath, PathSegment::ClosePath, move_to(1.0, 1.0)],
    ];
    for segments in paths {
        assert!(paired(&events(segments)));
    }
}
