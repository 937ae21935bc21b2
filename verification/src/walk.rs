//! What a walk over a scene does, as mathematics: which pass comes next,
//! and what becomes of the mesh when a pass is answered.

use vstd::prelude::*;

use crate::mesh::{packed, GpuPrimitive, GpuTransform, Mesh, Triangles};
use crate::paint::{
    paint_color, stroke_options, FillOptions, GpuColor, StrokeOptions, TOLERANCE,
};
use crate::path::{event_stream, PathEvent};
use crate::scene::{Node, Path, Stroke, Transform};
use crate::transform::{last_of, packed_runs};

verus! {

/// The most nodes a scene may have for a walk over it: with two primitives
/// to a node at most, every primitive then has an index of 32 bits.
pub const MAX_NODES: usize = 0x7fff_ffff;

/// Why a pass gave no triangles.
#[derive(Clone, Copy, Debug, PartialEq, Eq, Structural)]
pub enum GeometryError {
    UnsupportedParameter,
    InvalidVertex,
    TooManyVertices,
    Internal,
}

/// Which of the two passes of a path is to be run, and how.
#[derive(Clone, Copy, Debug, PartialEq, Eq, Structural)]
pub enum PassKind {
    Fill(FillOptions),
    Stroke(StrokeOptions),
}

/// A pass as sequences.
pub struct PassView {
    pub events: Seq<PathEvent>,
    pub kind: PassKind,
}

/// A walk that waits for the triangles of a pass: the node whose pass it
/// is, which of its two passes, the mesh so far, and the primitive that the
/// pass adds to it if it gives triangles.
pub struct WalkView {
    pub cursor: int,
    pub stroking: bool,
    pub mesh: Mesh,
    pub pending: GpuPrimitive,
}

/// What a walk does next.
pub enum StepView {
    /// It waits for the triangles of a pass.
    Run(WalkView, PassView),
    /// It is over: the mesh, or the error of the fill pass that failed.
    Finished(Result<Mesh, GeometryError>),
}

/// The transforms of the paths among `nodes`, in order.
pub open spec fn path_transforms(nodes: Seq<Node>) -> Seq<Transform>
    decreases nodes.len(),
{
    if nodes.len() == 0 {
        Seq::empty()
    } else {
        match nodes.last() {
            Node::Path(p) => path_transforms(nodes.drop_last()).push(p.transform),
            Node::Other => path_transforms(nodes.drop_last()),
        }
    }
}

/// The fill pass of `p`.
pub open spec fn fill_pass(p: Path) -> PassView {
    PassView {
        events: event_stream(p.segments@),
        kind: PassKind::Fill(FillOptions { tolerance: TOLERANCE }),
    }
}

/// The stroke pass of `p`, whose stroke is `s`.
pub open spec fn stroke_pass(p: Path, s: Stroke) -> PassView {
    PassView { events: event_stream(p.segments@), kind: PassKind::Stroke(stroke_options(s)) }
}

/// The table of transforms once a path with transform `t` is reached, where
/// `before` are the transforms of the paths before it: one record more,
/// unless `t` is the transform of the path just before.
pub open spec fn note_transform(
    records: Seq<GpuTransform>,
    before: Seq<Transform>,
    t: Transform,
) -> Seq<GpuTransform> {
    if last_of(before) == Some(t) {
        records
    } else {
        records.push(packed(t))
    }
}

/// The primitive of a pass that is begun on mesh `m`: it has the colour of
/// the pass and refers to the newest transform.
pub open spec fn primitive_for(m: Mesh, color: GpuColor) -> GpuPrimitive {
    GpuPrimitive { transform: (m.transforms.len() - 1) as u32, color }
}

/// The walk from node `i` on, with mesh `m`. With `filled` unset, node `i`
/// is yet to be looked at; with `filled` set, it is a path whose transform
/// is noted and whose fill pass, if it has one, is over.
///
/// The walk passes over what is no path. Of a path it notes the transform,
/// then runs the fill pass if the path has a fill, then the stroke pass if
/// it has a stroke; the primitive of a pass is made before the pass is run.
/// When no node is left, the mesh is finished.
pub open spec fn advance(nodes: Seq<Node>, i: int, filled: bool, m: Mesh) -> StepView
    decreases
            nodes.len() - i,
            (if filled {
                0int
            } else {
                1int
            }),
{
    if !(0 <= i < nodes.len()) {
        StepView::Finished(Ok(m))
    } else {
        match nodes[i] {
            Node::Other => advance(nodes, i + 1, false, m),
            Node::Path(p) => if !filled {
                let noted = Mesh {
                    transforms: note_transform(
                        m.transforms,
                        path_transforms(nodes.take(i)),
                        p.transform,
                    ),
                    ..m
                };
                match p.fill {
                    Some(fill) => StepView::Run(
                        WalkView {
                            cursor: i,
                            stroking: false,
                            mesh: noted,
                            pending: primitive_for(noted, paint_color(fill.paint, fill.opacity)),
                        },
                        fill_pass(p),
                    ),
                    None => advance(nodes, i, true, noted),
                }
            } else {
                match p.stroke {
                    Some(stroke) => StepView::Run(
                        WalkView {
                            cursor: i,
                            stroking: true,
                            mesh: m,
                            pending: primitive_for(m, paint_color(stroke.paint, stroke.opacity)),
                        },
                        stroke_pass(p, stroke),
                    ),
                    None => advance(nodes, i + 1, false, m),
                }
            },
        }
    }
}

/// The walk over `nodes` from its start.
pub open spec fn start(nodes: Seq<Node>) -> StepView {
    advance(nodes, 0, false, Mesh::empty())
}

/// What becomes of the mesh of `w` when its pass is answered: with
/// triangles it takes them in, and the primitive of the pass with them,
/// unless the vertices are more than it has room for; with an error it keeps
/// the error.
pub open spec fn settle(w: WalkView, reply: Result<Triangles, GeometryError>) -> Result<
    Mesh,
    GeometryError,
> {
    match reply {
        Ok(g) => if w.mesh.fits(g) {
            Ok(w.mesh.absorb(w.pending, g))
        } else {
            Err(GeometryError::TooManyVertices)
        },
        Err(e) => Err(e),
    }
}

/// The walk `w` once its pass is answered with `reply`.
///
/// Triangles go into the mesh, and the walk goes on: after a fill pass to
/// the stroke of the same path, after a stroke pass to the next node. A fill
/// pass that failed ends the walk with its error. A stroke pass that failed
/// leaves the mesh as it was, and the walk goes on to the next node.
pub open spec fn resume(
    nodes: Seq<Node>,
    w: WalkView,
    reply: Result<Triangles, GeometryError>,
) -> StepView {
    match settle(w, reply) {
        Ok(m) => if w.stroking {
            advance(nodes, w.cursor + 1, false, m)
        } else {
            advance(nodes, w.cursor, true, m)
        },
        Err(e) => if w.stroking {
            advance(nodes, w.cursor + 1, false, w.mesh)
        } else {
            StepView::Finished(Err(e))
        },
    }
}

/// The step that the walk over `nodes` has come to when `replies` have been
/// given, one to each pass in turn. Replies that come when the walk is over
/// change nothing.
pub open spec fn after(nodes: Seq<Node>, replies: Seq<Result<Triangles, GeometryError>>) -> StepView
    decreases replies.len(),
{
    if replies.len() == 0 {
        start(nodes)
    } else {
        match after(nodes, replies.drop_last()) {
            StepView::Run(w, _) => resume(nodes, w, replies.last()),
            StepView::Finished(result) => StepView::Finished(result),
        }
    }
}

/// The number of passes, among those that `replies` answer in turn, that
/// gave triangles which went into the mesh. A reply that comes when the walk
/// is over answers no pass.
pub open spec fn passes_taken(
    nodes: Seq<Node>,
    replies: Seq<Result<Triangles, GeometryError>>,
) -> nat
    decreases replies.len(),
{
    if replies.len() == 0 {
        0
    } else {
        let earlier = passes_taken(nodes, replies.drop_last());
        match after(nodes, replies.drop_last()) {
            StepView::Run(w, _) => if settle(w, replies.last()) is Ok {
                earlier + 1
            } else {
                earlier
            },
            StepView::Finished(_) => earlier,
        }
    }
}

/// What holds of the mesh between two passes, at node `i`: it is well
/// formed, its transforms are the records of the runs among the paths
/// reached so far, and it has two primitives at most for each node before
/// `i`, and one for the fill of node `i`.
pub open spec fn between(nodes: Seq<Node>, i: int, filled: bool, m: Mesh) -> bool {
    &&& 0 <= i <= nodes.len() <= MAX_NODES
    &&& filled ==> i < nodes.len() && nodes[i] is Path
    &&& m.wf()
    &&& m.transforms == packed_runs(
        path_transforms(
            nodes.take(
                if filled {
                    i + 1
                } else {
                    i
                },
            ),
        ),
    )
    &&& m.primitives.len() <= 2 * i + (if filled {
        1int
    } else {
        0int
    })
}

/// The pass of the path `p` that is a stroke pass or not, if the path has
/// the stroke or fill for it.
pub open spec fn pass_of(p: Path, stroking: bool) -> Option<PassView> {
    if stroking {
        match p.stroke {
            Some(stroke) => Some(stroke_pass(p, stroke)),
            None => None,
        }
    } else {
        match p.fill {
            Some(_) => Some(fill_pass(p)),
            None => None,
        }
    }
}

/// The colour of the stroke or of the fill of `p`, if the path has one.
pub open spec fn color_of(p: Path, stroking: bool) -> Option<GpuColor> {
    if stroking {
        match p.stroke {
            Some(stroke) => Some(paint_color(stroke.paint, stroke.opacity)),
            None => None,
        }
    } else {
        match p.fill {
            Some(fill) => Some(paint_color(fill.paint, fill.opacity)),
            None => None,
        }
    }
}

/// What holds of a walk that waits for a pass: it stands at a path that has
/// the fill or stroke in question; the mesh is well formed; the primitive of
/// the pass has the colour of that fill or stroke and refers to the newest
/// transform, which is the record of the path's own; and the transforms are
/// the records of the runs among the paths reached so far.
pub open spec fn waiting(nodes: Seq<Node>, w: WalkView) -> bool {
    &&& 0 <= w.cursor < nodes.len() <= MAX_NODES
    &&& nodes[w.cursor] matches Node::Path(p) && color_of(p, w.stroking) == Some(w.pending.color)
        && w.mesh.transforms.len() > 0 && w.mesh.transforms.last() == packed(p.transform)
    &&& w.pending.transform == w.mesh.transforms.len() - 1
    &&& w.mesh.wf()
    &&& w.mesh.transforms == packed_runs(path_transforms(nodes.take(w.cursor + 1)))
    &&& w.mesh.primitives.len() <= 2 * w.cursor + (if w.stroking {
        1int
    } else {
        0int
    })
}

/// What holds of a step of a walk over `nodes`: a walk that waits is as
/// `waiting` says, and waits for the pass of the path that it stands at; a
/// finished mesh is well formed and has for its transforms the records of
/// the runs among all the paths of the scene.
pub open spec fn sound(nodes: Seq<Node>, step: StepView) -> bool {
    match step {
        StepView::Run(w, pass) => waiting(nodes, w) && (nodes[w.cursor] matches Node::Path(p)
            && pass_of(p, w.stroking) == Some(pass)),
        StepView::Finished(Ok(m)) => m.wf() && m.transforms == packed_runs(path_transforms(nodes)),
        StepView::Finished(Err(_)) => true,
    }
}

/// `later` holds all that `earlier` holds, at the same indices, and perhaps
/// more behind it.
pub open spec fn extends(later: Mesh, earlier: Mesh) -> bool {
    &&& earlier.vertices.is_prefix_of(later.vertices)
    &&& earlier.indices.is_prefix_of(later.indices)
    &&& earlier.transforms.is_prefix_of(later.transforms)
    &&& earlier.primitives.is_prefix_of(later.primitives)
}

/// The mesh of a step, where it has one.
pub open spec fn mesh_of(step: StepView) -> Option<Mesh> {
    match step {
        StepView::Run(w, _) => Some(w.mesh),
        StepView::Finished(Ok(m)) => Some(m),
        StepView::Finished(Err(_)) => None,
    }
}

} // verus!
