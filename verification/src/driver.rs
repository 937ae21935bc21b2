//! The walk over a scene, one pass at a time. The walk does not triangulate:
//! it hands out each pass and is resumed with the triangles.

use vstd::prelude::*;

use crate::laws::{
    lemma_absorb_wf, lemma_advance_sound, lemma_note_transform, lemma_path_transforms_take,
};
use crate::mesh::{
    append_geometry, Geometry, GpuPrimitive, GpuTransform, GpuVertex, Mesh, TessellationData,
    Triangles, VertexCtor,
};
use crate::paint::{convert_stroke, resolve_fill, FillOptions, TOLERANCE};
use crate::path::{convert_path, PathEvent};
use crate::scene::{Node, Transform};
use crate::transform::{packed_runs, TransformTable};
use crate::walk::{
    advance, between, note_transform, path_transforms, resume, sound, start, waiting,
    GeometryError, PassKind, PassView, StepView, WalkView, MAX_NODES,
};

verus! {

/// One pass for a triangulator to run: the event stream of a path, and
/// whether to fill or to stroke it.
#[derive(Debug, PartialEq, Eq)]
pub struct Pass {
    pub events: Vec<PathEvent>,
    pub kind: PassKind,
}

impl View for Pass {
    type V = PassView;

    open spec fn view(&self) -> PassView {
        PassView { events: self.events@, kind: self.kind }
    }
}

/// The mesh while it is being built.
struct Parts {
    table: TransformTable,
    primitives: Vec<GpuPrimitive>,
    vertices: Vec<GpuVertex>,
    indices: Vec<u32>,
}

impl Parts {
    spec fn mesh(&self) -> Mesh {
        Mesh {
            vertices: self.vertices@,
            indices: self.indices@,
            transforms: self.table.records(),
            primitives: self.primitives@,
        }
    }

    /// The table is well formed and has been shown the transforms of the
    /// paths among the first `k` nodes.
    spec fn shown(&self, nodes: Seq<Node>, k: int) -> bool {
        self.table.wf() && self.table.seen() == path_transforms(nodes.take(k))
    }

    fn finish(self) -> (data: TessellationData)
        ensures
            data@ == self.mesh(),
    {
        TessellationData {
            vertices: self.vertices,
            indices: self.indices,
            transforms: self.table.into_records(),
            primitives: self.primitives,
        }
    }
}

/// A walk over the nodes of a scene that waits for the triangles of a
/// pass. It holds the mesh so far, and the primitive that goes into it with
/// the triangles.
pub struct Walk<'a> {
    nodes: &'a Vec<Node>,
    cursor: usize,
    stroking: bool,
    parts: Parts,
    pending: GpuPrimitive,
}

impl<'a> View for Walk<'a> {
    type V = WalkView;

    closed spec fn view(&self) -> WalkView {
        WalkView {
            cursor: self.cursor as int,
            stroking: self.stroking,
            mesh: self.parts.mesh(),
            pending: self.pending,
        }
    }
}

impl<'a> Walk<'a> {
    /// The nodes that are walked over.
    pub closed spec fn nodes(&self) -> Seq<Node> {
        self.nodes@
    }

    /// The walk is as `waiting` says.
    pub closed spec fn wf(&self) -> bool {
        &&& waiting(self.nodes@, self@)
        &&& self.parts.shown(self.nodes@, self.cursor + 1)
    }

    /// A well-formed walk is as `waiting` says.
    pub proof fn lemma_waiting(&self)
        requires
            self.wf(),
        ensures
            waiting(self.nodes(), self@),
    {
    }

    /// The index of the node whose pass is waited for.
    pub fn cursor(&self) -> (i: usize)
        ensures
            i == self@.cursor,
    {
        self.cursor
    }

    /// Whether the pass waited for is a stroke pass.
    pub fn is_stroking(&self) -> (b: bool)
        ensures
            b == self@.stroking,
    {
        self.stroking
    }

    /// Goes on with the walk, now that the pass it waited for was run and
    /// gave `reply`.
    pub fn resume(self, reply: Result<Geometry, GeometryError>) -> (step: Step<'a>)
        requires
            self.wf(),
        ensures
            step@ == resume(self.nodes(), self@, reply_view(reply)),
            step.wf(self.nodes()),
    {
        let nodes = self.nodes;
        let cursor = self.cursor;
        let stroking = self.stroking;
        let pending = self.pending;
        let mut parts = self.parts;
        let ghost w = self@;
        let mut failure: Option<GeometryError> = None;
        match reply {
            Ok(g) => {
                let room = u32::MAX as usize - parts.vertices.len();
                if g.vertices().len() <= room {
                    proof {
                        lemma_absorb_wf(nodes@, w, g@);
                    }
                    let mut ctor = VertexCtor { prim_id: parts.primitives.len() as u32 };
                    parts.primitives.push(pending);
                    append_geometry(&mut parts.vertices, &mut parts.indices, &mut ctor, &g);
                    assert(parts.mesh() == w.mesh.absorb(w.pending, g@));
                } else {
                    failure = Some(GeometryError::TooManyVertices);
                }
            },
            Err(e) => {
                failure = Some(e);
            },
        }
        match failure {
            None => {
                if stroking {
                    walk_on(nodes, cursor + 1, false, parts)
                } else {
                    walk_on(nodes, cursor, true, parts)
                }
            },
            Some(e) => {
                if stroking {
                    walk_on(nodes, cursor + 1, false, parts)
                } else {
                    Step::Finished(Err(e))
                }
            },
        }
    }
}

/// A reply as sequences.
pub open spec fn reply_view(reply: Result<Geometry, GeometryError>) -> Result<
    Triangles,
    GeometryError,
> {
    match reply {
        Ok(g) => Ok(g@),
        Err(e) => Err(e),
    }
}

/// What a walk does next: it waits for a pass to be run, or it is over.
pub enum Step<'a> {
    /// Run the pass, and resume the walk with what it gave.
    Run(Walk<'a>, Pass),
    /// The mesh, or the error of the fill pass that failed.
    Finished(Result<TessellationData, GeometryError>),
}

impl<'a> View for Step<'a> {
    type V = StepView;

    open spec fn view(&self) -> StepView {
        match self {
            Step::Run(walk, pass) => StepView::Run(walk@, pass@),
            Step::Finished(Ok(data)) => StepView::Finished(Ok(data@)),
            Step::Finished(Err(e)) => StepView::Finished(Err(*e)),
        }
    }
}

impl<'a> Step<'a> {
    /// A walk that waits belongs to `nodes` and is well formed; the step is
    /// sound.
    pub open spec fn wf(&self, nodes: Seq<Node>) -> bool {
        &&& sound(nodes, self@)
        &&& self matches Step::Run(walk, _) ==> walk.nodes() == nodes && walk.wf()
    }
}

/// Walks on from node `start`, as `advance` says, up to the next pass or to
/// the end.
fn walk_on<'a>(nodes: &'a Vec<Node>, start: usize, filled: bool, parts: Parts) -> (step: Step<'a>)
    requires
        between(nodes@, start as int, filled, parts.mesh()),
        parts.shown(
            nodes@,
            if filled {
                start + 1
            } else {
                start as int
            },
        ),
    ensures
        step@ == advance(nodes@, start as int, filled, parts.mesh()),
        step.wf(nodes@),
{
    let ghost goal = advance(nodes@, start as int, filled, parts.mesh());
    proof {
        lemma_advance_sound(nodes@, start as int, filled, parts.mesh());
    }
    let mut acc = parts;
    let mut i: usize = start;
    let mut done: bool = filled;
    loop
        invariant
            between(nodes@, i as int, done, acc.mesh()),
            acc.shown(
                nodes@,
                if done {
                    i + 1
                } else {
                    i as int
                },
            ),
            advance(nodes@, i as int, done, acc.mesh()) == goal,
            goal == advance(nodes@, start as int, filled, parts.mesh()),
            sound(nodes@, goal),
        decreases
                nodes.len() - i,
                (if done {
                    0int
                } else {
                    1int
                }),
    {
        if i >= nodes.len() {
            return Step::Finished(Ok(acc.finish()));
        }
        match &nodes[i] {
            Node::Other => {
                proof {
                    lemma_path_transforms_take(nodes@, i as int);
                }
                i = i + 1;
                done = false;
            },
            Node::Path(p) => {
                proof {
                    lemma_path_transforms_take(nodes@, i as int);
                    lemma_note_transform(nodes@, i as int, *p);
                }
                if !done {
                    let ghost before = acc.mesh();
                    let transform_idx = acc.table.visit(p.transform);
                    let ghost noted = acc.mesh();
                    assert(noted == (Mesh {
                        transforms: note_transform(
                            before.transforms,
                            path_transforms(nodes@.take(i as int)),
                            p.transform,
                        ),
                        ..before
                    }));
                    match p.fill {
                        Some(fill) => {
                            let color = resolve_fill(&fill);
                            let pending = GpuPrimitive::new(transform_idx, color);
                            let events = convert_path(p).collect();
                            let pass = Pass {
                                events,
                                kind: PassKind::Fill(FillOptions { tolerance: TOLERANCE }),
                            };
                            let walk = Walk {
                                nodes,
                                cursor: i,
                                stroking: false,
                                parts: acc,
                                pending,
                            };
                            return Step::Run(walk, pass);
                        },
                        None => {
                            done = true;
                        },
                    }
                } else {
                    match p.stroke {
                        Some(stroke) => {
                            let transform_idx = (acc.table.len() - 1) as u32;
                            let (color, options) = convert_stroke(&stroke);
                            let pending = GpuPrimitive::new(transform_idx, color);
                            let events = convert_path(p).collect();
                            let pass = Pass { events, kind: PassKind::Stroke(options) };
                            let walk = Walk {
                                nodes,
                                cursor: i,
                                stroking: true,
                                parts: acc,
                                pending,
                            };
                            return Step::Run(walk, pass);
                        },
                        None => {
                            i = i + 1;
                            done = false;
                        },
                    }
                }
            },
        }
    }
}

/// Starts the walk over `nodes`.
pub fn begin<'a>(nodes: &'a Vec<Node>) -> (step: Step<'a>)
    requires
        nodes@.len() <= MAX_NODES,
    ensures
        step@ == start(nodes@),
        step.wf(nodes@),
{
    let parts = Parts {
        table: TransformTable::new(),
        primitives: Vec::new(),
        vertices: Vec::new(),
        indices: Vec::new(),
    };
    proof {
        assert(nodes@.take(0) == Seq::<Node>::empty());
        assert(packed_runs(Seq::<Transform>::empty()) == Seq::<GpuTransform>::empty());
        assert(parts.mesh() == Mesh::empty());
    }
    walk_on(nodes, 0, false, parts)
}

} // verus!
