//! From the segments of an outline to the events that a triangulator reads:
//! every sub-path is begun, drawn edge by edge, and ended.

use vstd::prelude::*;

use crate::geom::Point;
use crate::scene::{Path, PathSegment};

verus! {

/// One event of the stream that a triangulator consumes: a sub-path is begun,
/// drawn edge by edge, and ended.
#[derive(Clone, Copy, Debug, PartialEq, Eq, Structural)]
pub enum PathEvent {
    Begin { at: Point },
    Line { from: Point, to: Point },
    Cubic { from: Point, ctrl1: Point, ctrl2: Point, to: Point },
    End { last: Point, first: Point, close: bool },
}

/// What is remembered from one segment to the next: the point last drawn
/// to, the point the current sub-path started at, and whether a sub-path is
/// open.
pub struct Pen {
    pub prev: Point,
    pub first: Point,
    pub open: bool,
}

impl Pen {
    /// The pen before the first segment: at the origin, with no sub-path
    /// open.
    pub open spec fn start() -> Pen {
        Pen { prev: Point::origin(), first: Point::origin(), open: false }
    }

    /// The pen after `seg`.
    ///
    /// A `MoveTo` moves the pen to its point and starts a sub-path there,
    /// whether or not one was open before. A `LineTo` or a `CurveTo` moves
    /// the pen to its end point. A `ClosePath` returns the pen to the start of
    /// the sub-path.
    pub open spec fn after(self, seg: PathSegment) -> Pen {
        match seg {
            PathSegment::MoveTo { x, y } => Pen {
                prev: Point { x, y },
                first: Point { x, y },
                open: true,
            },
            PathSegment::LineTo { x, y } => Pen { prev: Point { x, y }, first: self.first, open: true },
            PathSegment::CurveTo { x, y, .. } => Pen {
                prev: Point { x, y },
                first: self.first,
                open: true,
            },
            PathSegment::ClosePath => Pen { prev: self.first, first: self.first, open: false },
        }
    }

    /// The events that `seg` gives rise to: one, or two where a `MoveTo` has
    /// to end the sub-path before it.
    pub open spec fn emit(self, seg: PathSegment) -> Seq<PathEvent> {
        match seg {
            PathSegment::MoveTo { x, y } => if self.open {
                seq![
                    PathEvent::End { last: self.prev, first: self.first, close: false },
                    PathEvent::Begin { at: Point { x, y } },
                ]
            } else {
                seq![PathEvent::Begin { at: Point { x, y } }]
            },
            PathSegment::LineTo { x, y } => seq![
                PathEvent::Line { from: self.prev, to: Point { x, y } },
            ],
            PathSegment::CurveTo { x1, y1, x2, y2, x, y } => seq![
                PathEvent::Cubic {
                    from: self.prev,
                    ctrl1: Point { x: x1, y: y1 },
                    ctrl2: Point { x: x2, y: y2 },
                    to: Point { x, y },
                },
            ],
            PathSegment::ClosePath => seq![
                PathEvent::End { last: self.first, first: self.first, close: true },
            ],
        }
    }

    /// The events of `segs`, drawn with this pen, and the `End` that is owed
    /// when the segments run out while a sub-path is open.
    pub open spec fn draw(self, segs: Seq<PathSegment>) -> Seq<PathEvent>
        decreases segs.len(),
    {
        if segs.len() == 0 {
            if self.open {
                seq![PathEvent::End { last: self.prev, first: self.first, close: false }]
            } else {
                Seq::empty()
            }
        } else {
            self.emit(segs[0]) + self.after(segs[0]).draw(segs.drop_first())
        }
    }
}

/// The event stream of a whole path.
pub open spec fn event_stream(segs: Seq<PathSegment>) -> Seq<PathEvent> {
    Pen::start().draw(segs)
}

/// `events`, read from a state in which a sub-path is open or not, pairs
/// every `Begin` with one `End`: a `Begin` comes only while none is open, an
/// edge or an `End` only while one is, and none is left open.
pub open spec fn balanced(events: Seq<PathEvent>, open: bool) -> bool
    decreases events.len(),
{
    if events.len() == 0 {
        !open
    } else {
        match events[0] {
            PathEvent::Begin { .. } => !open && balanced(events.drop_first(), true),
            PathEvent::Line { .. } => open && balanced(events.drop_first(), true),
            PathEvent::Cubic { .. } => open && balanced(events.drop_first(), true),
            PathEvent::End { .. } => open && balanced(events.drop_first(), false),
        }
    }
}

/// A stream is well formed when it is balanced from the closed state.
pub open spec fn well_formed(events: Seq<PathEvent>) -> bool {
    balanced(events, false)
}

/// Every segment other than a `MoveTo` finds a sub-path open: the first
/// segment if `open` says so, a later one if it does not follow a
/// `ClosePath`.
pub open spec fn continues_from(segs: Seq<PathSegment>, open: bool) -> bool {
    forall|i: int|
        0 <= i < segs.len() && !(#[trigger] segs[i] is MoveTo) ==> if i == 0 {
            open
        } else {
            !(segs[i - 1] is ClosePath)
        }
}

/// Every segment other than a `MoveTo` continues a sub-path: it is not the
/// first segment and does not follow a `ClosePath`.
pub open spec fn continues_subpaths(segs: Seq<PathSegment>) -> bool {
    continues_from(segs, false)
}

/// Prefixing a stream with the events of one segment keeps it balanced
/// exactly when the segment finds the state it needs (a `MoveTo` needs none)
/// and the rest is balanced from the state that the segment leaves.
proof fn lemma_balanced_after_emit(pen: Pen, seg: PathSegment, tail: Seq<PathEvent>)
    ensures
        balanced(pen.emit(seg) + tail, pen.open) <==> (seg is MoveTo || pen.open) && balanced(
            tail,
            pen.after(seg).open,
        ),
{
    let all = pen.emit(seg) + tail;
    match seg {
        PathSegment::MoveTo { x, y } => {
            if pen.open {
                let mid = seq![PathEvent::Begin { at: Point { x, y } }] + tail;
                assert(all[0] is End);
                assert(all.drop_first() == mid);
                assert(mid[0] is Begin);
                assert(mid.drop_first() == tail);
                assert(balanced(mid, false) == balanced(tail, true));
            } else {
                assert(all[0] is Begin);
                assert(all.drop_first() == tail);
            }
        },
        PathSegment::LineTo { .. } => {
            assert(all[0] is Line);
            assert(all.drop_first() == tail);
        },
        PathSegment::CurveTo { .. } => {
            assert(all[0] is Cubic);
            assert(all.drop_first() == tail);
        },
        PathSegment::ClosePath => {
            assert(all[0] is End);
            assert(all.drop_first() == tail);
        },
    }
}

/// `continues_from` taken one segment at a time.
proof fn lemma_continues_from_unfold(segs: Seq<PathSegment>, open: bool)
    requires
        segs.len() > 0,
    ensures
        continues_from(segs, open) <==> (segs[0] is MoveTo || open) && continues_from(
            segs.drop_first(),
            !(segs[0] is ClosePath),
        ),
{
    let rest = segs.drop_first();
    let then = !(segs[0] is ClosePath);
    if continues_from(segs, open) {
        assert(segs[0] is MoveTo || open);
        assert forall|i: int| 0 <= i < rest.len() && !(#[trigger] rest[i] is MoveTo) implies if i
            == 0 {
            then
        } else {
            !(rest[i - 1] is ClosePath)
        } by {
            assert(!(segs[i + 1] is MoveTo));
        }
    }
    if (segs[0] is MoveTo || open) && continues_from(rest, then) {
        assert forall|i: int| 0 <= i < segs.len() && !(#[trigger] segs[i] is MoveTo) implies if i
            == 0 {
            open
        } else {
            !(segs[i - 1] is ClosePath)
        } by {
            if i > 0 {
                assert(!(rest[i - 1] is MoveTo));
            }
        }
    }
}

/// Drawing `segs` with `pen` gives a stream that is balanced from the pen's
/// state exactly when every segment other than a `MoveTo` finds a sub-path
/// open.
pub proof fn lemma_draw_balanced(pen: Pen, segs: Seq<PathSegment>)
    ensures
        balanced(pen.draw(segs), pen.open) <==> continues_from(segs, pen.open),
    decreases segs.len(),
{
    if segs.len() == 0 {
        if pen.open {
            let only = pen.draw(segs);
            assert(only[0] is End);
            assert(only.drop_first().len() == 0);
            assert(balanced(only.drop_first(), false));
        }
    } else {
        let next = pen.after(segs[0]);
        lemma_draw_balanced(next, segs.drop_first());
        lemma_balanced_after_emit(pen, segs[0], next.draw(segs.drop_first()));
        lemma_continues_from_unfold(segs, pen.open);
    }
}

/// The event stream of a path pairs every `Begin` with one `End`, and has no
/// edge and no `End` outside such a pair, exactly when every segment of the
/// path other than a `MoveTo` continues a sub-path.
pub proof fn lemma_event_stream_well_formed(segs: Seq<PathSegment>)
    ensures
        well_formed(event_stream(segs)) <==> continues_subpaths(segs),
{
    lemma_draw_balanced(Pen::start(), segs);
}

/// `events`, read from a state in which a `Begin` or an edge waits for its
/// `End` or not, leave nothing unpaired: no `Begin` comes while something
/// waits, every `End` ends the wait, and at the end nothing waits.
pub open spec fn paired(events: Seq<PathEvent>, waits: bool) -> bool
    decreases events.len(),
{
    if events.len() == 0 {
        !waits
    } else {
        match events[0] {
            PathEvent::Begin { .. } => !waits && paired(events.drop_first(), true),
            PathEvent::Line { .. } => paired(events.drop_first(), true),
            PathEvent::Cubic { .. } => paired(events.drop_first(), true),
            PathEvent::End { .. } => paired(events.drop_first(), false),
        }
    }
}

/// The events of one segment leave a stream paired exactly when the rest is
/// paired from the state that the segment leaves.
proof fn lemma_paired_after_emit(pen: Pen, seg: PathSegment, tail: Seq<PathEvent>)
    ensures
        paired(pen.emit(seg) + tail, pen.open) <==> paired(tail, pen.after(seg).open),
{
    let all = pen.emit(seg) + tail;
    match seg {
        PathSegment::MoveTo { x, y } => {
            if pen.open {
                let mid = seq![PathEvent::Begin { at: Point { x, y } }] + tail;
                assert(all[0] is End);
                assert(all.drop_first() == mid);
                assert(mid[0] is Begin);
                assert(mid.drop_first() == tail);
                assert(paired(mid, false) == paired(tail, true));
            } else {
                assert(all[0] is Begin);
                assert(all.drop_first() == tail);
            }
        },
        PathSegment::LineTo { .. } => {
            assert(all[0] is Line);
            assert(all.drop_first() == tail);
        },
        PathSegment::CurveTo { .. } => {
            assert(all[0] is Cubic);
            assert(all.drop_first() == tail);
        },
        PathSegment::ClosePath => {
            assert(all[0] is End);
            assert(all.drop_first() == tail);
        },
    }
}

/// Whatever the segments, drawing them with `pen` leaves nothing unpaired.
pub proof fn lemma_draw_paired(pen: Pen, segs: Seq<PathSegment>)
    ensures
        paired(pen.draw(segs), pen.open),
    decreases segs.len(),
{
    if segs.len() == 0 {
        if pen.open {
            let only = pen.draw(segs);
            assert(only[0] is End);
            assert(only.drop_first().len() == 0);
            assert(paired(only.drop_first(), false));
        }
    } else {
        let next = pen.after(segs[0]);
        lemma_draw_paired(next, segs.drop_first());
        lemma_paired_after_emit(pen, segs[0], next.draw(segs.drop_first()));
    }
}

/// In the event stream of every path, whatever its segments, every `Begin`
/// has its one `End` before the next `Begin` and before the stream ends: no
/// `Begin` comes while a `Begin` or an edge waits for its `End`, and when the
/// stream ends no `Begin` and no edge is left without one.
pub proof fn lemma_event_stream_paired(segs: Seq<PathSegment>)
    ensures
        paired(event_stream(segs), false),
{
    lemma_draw_paired(Pen::start(), segs);
}

/// A stream that is well formed leaves nothing unpaired.
pub proof fn lemma_balanced_is_paired(events: Seq<PathEvent>, open: bool)
    requires
        balanced(events, open),
    ensures
        paired(events, open),
    decreases events.len(),
{
    if events.len() > 0 {
        lemma_balanced_is_paired(events.drop_first(), !(events[0] is End));
    }
}

/// The adapter from path segments to path events. It is read one event at a
/// time; what it has still to give is its view.
pub struct PathConvIter<'a> {
    iter: &'a Vec<PathSegment>,
    pos: usize,
    prev: Point,
    first: Point,
    needs_end: bool,
    deferred: Option<PathEvent>,
}

impl<'a> PathConvIter<'a> {
    #[verifier::type_invariant]
    spec fn inv(self) -> bool {
        self.pos <= self.iter@.len()
    }

    spec fn pen(self) -> Pen {
        Pen { prev: self.prev, first: self.first, open: self.needs_end }
    }

    /// The events not yet handed out, in order.
    pub closed spec fn view(&self) -> Seq<PathEvent> {
        let held = match self.deferred {
            Some(e) => seq![e],
            None => Seq::empty(),
        };
        held + self.pen().draw(self.iter@.skip(self.pos as int))
    }

    /// Hands out the next event, or `None` when the stream is exhausted.
    pub fn next(&mut self) -> (r: Option<PathEvent>)
        ensures
            match r {
                Some(e) => old(self)@ == seq![e] + final(self)@,
                None => old(self)@ == Seq::<PathEvent>::empty() && final(self)@ == Seq::<
                    PathEvent,
                >::empty(),
            },
    {
        proof {
            use_type_invariant(&*self);
        }
        if let Some(e) = self.deferred {
            self.deferred = None;
            return Some(e);
        }
        let ghost rest = self.iter@.skip(self.pos as int);
        let ghost pen = self.pen();
        if self.pos >= self.iter.len() {
            if self.needs_end {
                self.needs_end = false;
                return Some(PathEvent::End { last: self.prev, first: self.first, close: false });
            }
            return None;
        }
        let seg = self.iter[self.pos];
        self.pos = self.pos + 1;
        assert(rest.drop_first() == self.iter@.skip(self.pos as int));
        assert(rest[0] == seg);
        match seg {
            PathSegment::MoveTo { x, y } => {
                if self.needs_end {
                    let last = self.prev;
                    let first = self.first;
                    self.prev = Point { x, y };
                    self.deferred = Some(PathEvent::Begin { at: self.prev });
                    self.first = self.prev;
                    assert(self.pen() == pen.after(seg));
                    Some(PathEvent::End { last, first, close: false })
                } else {
                    self.first = Point { x, y };
                    self.prev = self.first;
                    self.needs_end = true;
                    assert(self.pen() == pen.after(seg));
                    Some(PathEvent::Begin { at: self.first })
                }
            },
            PathSegment::LineTo { x, y } => {
                self.needs_end = true;
                let from = self.prev;
                self.prev = Point { x, y };
                assert(self.pen() == pen.after(seg));
                Some(PathEvent::Line { from, to: self.prev })
            },
            PathSegment::CurveTo { x1, y1, x2, y2, x, y } => {
                self.needs_end = true;
                let from = self.prev;
                self.prev = Point { x, y };
                assert(self.pen() == pen.after(seg));
                Some(
                    PathEvent::Cubic {
                        from,
                        ctrl1: Point { x: x1, y: y1 },
                        ctrl2: Point { x: x2, y: y2 },
                        to: self.prev,
                    },
                )
            },
            PathSegment::ClosePath => {
                self.needs_end = false;
                self.prev = self.first;
                assert(self.pen() == pen.after(seg));
                Some(PathEvent::End { last: self.prev, first: self.first, close: true })
            },
        }
    }

    /// Reads the adapter to its end.
    pub fn collect(self) -> (events: Vec<PathEvent>)
        ensures
            events@ == self@,
    {
        let mut it = self;
        let ghost all = it@;
        let mut events: Vec<PathEvent> = Vec::new();
        loop
            invariant
                all == events@ + it@,
            ensures
                events@ == all,
            decreases it@.len(),
        {
            match it.next() {
                Some(e) => {
                    events.push(e);
                },
                None => {
                    break ;
                },
            }
        }
        events
    }
}

/// The adapter at the start of the outline of `p`.
pub fn convert_path<'a>(p: &'a Path) -> (it: PathConvIter<'a>)
    ensures
        it@ == event_stream(p.segments@),
{
    let it = PathConvIter {
        iter: &p.segments,
        pos: 0,
        first: Point { x: 0, y: 0 },
        prev: Point { x: 0, y: 0 },
        deferred: None,
        needs_end: false,
    };
    assert(p.segments@.skip(0) == p.segments@);
    it
}

} // verus!
