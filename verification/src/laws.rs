//! What holds of every walk.

use vstd::prelude::*;

use crate::mesh::{offset_all, packed, tag_all, GpuPrimitive, GpuTransform, Mesh, Triangles};
use crate::paint::{paint_color, spec_fallback_color};
use crate::scene::{Fill, Node, Path, Stroke, Transform};
use crate::transform::{
    lemma_run_index, lemma_runs_counted, lemma_runs_last, lemma_runs_push, packed_runs, run_index,
    run_starts,
};
use crate::walk::{
    advance, after, between, extends, fill_pass, mesh_of, note_transform, passes_taken,
    path_transforms, primitive_for, resume, settle, sound, start, stroke_pass, waiting,
    GeometryError, StepView, WalkView, MAX_NODES,
};

verus! {

/// The transforms of the paths among the first `i + 1` nodes are those
/// among the first `i`, and that of node `i` if it is a path.
pub proof fn lemma_path_transforms_take(nodes: Seq<Node>, i: int)
    requires
        0 <= i < nodes.len(),
    ensures
        path_transforms(nodes.take(i + 1)) == match nodes[i] {
            Node::Path(p) => path_transforms(nodes.take(i)).push(p.transform),
            Node::Other => path_transforms(nodes.take(i)),
        },
        path_transforms(nodes.take(i)).len() <= i,
    decreases i,
{
    assert(nodes.take(i + 1).drop_last() == nodes.take(i));
    if i > 0 {
        lemma_path_transforms_take(nodes, i - 1);
    }
}

/// Noting the transform of the path at node `i` keeps the transforms the
/// records of the runs, and leaves the record of that path as the newest.
pub proof fn lemma_note_transform(nodes: Seq<Node>, i: int, p: Path)
    requires
        0 <= i < nodes.len(),
        nodes[i] == Node::Path(p),
    ensures
        note_transform(
            packed_runs(path_transforms(nodes.take(i))),
            path_transforms(nodes.take(i)),
            p.transform,
        ) == packed_runs(path_transforms(nodes.take(i + 1))),
        packed_runs(path_transforms(nodes.take(i + 1))).len() > 0,
        packed_runs(path_transforms(nodes.take(i + 1))).len() <= i + 1,
        packed_runs(path_transforms(nodes.take(i + 1))).last() == packed(p.transform),
        packed_runs(path_transforms(nodes.take(i))).len() <= packed_runs(
            path_transforms(nodes.take(i + 1)),
        ).len(),
{
    let before = path_transforms(nodes.take(i));
    lemma_path_transforms_take(nodes, i);
    lemma_runs_push(before, p.transform);
    lemma_runs_last(before.push(p.transform));
}

/// A walk that goes on from a mesh as `between` describes comes to a step
/// that is sound.
pub proof fn lemma_advance_sound(nodes: Seq<Node>, i: int, filled: bool, m: Mesh)
    requires
        between(nodes, i, filled, m),
    ensures
        sound(nodes, advance(nodes, i, filled, m)),
    decreases
            nodes.len() - i,
            (if filled {
                0int
            } else {
                1int
            }),
{
    if i == nodes.len() {
        assert(nodes.take(i) == nodes);
    } else {
        match nodes[i] {
            Node::Other => {
                lemma_path_transforms_take(nodes, i);
                lemma_advance_sound(nodes, i + 1, false, m);
            },
            Node::Path(p) => {
                if !filled {
                    lemma_note_transform(nodes, i, p);
                    let noted = Mesh {
                        transforms: note_transform(
                            m.transforms,
                            path_transforms(nodes.take(i)),
                            p.transform,
                        ),
                        ..m
                    };
                    assert(noted.wf());
                    if p.fill is None {
                        lemma_advance_sound(nodes, i, true, noted);
                    }
                } else {
                    lemma_note_transform(nodes, i, p);
                    if p.stroke is None {
                        lemma_advance_sound(nodes, i + 1, false, m);
                    }
                }
            },
        }
    }
}

/// Triangles that fit go into the mesh of a waiting walk without breaking
/// it: every new vertex refers to the new primitive, every new index to a
/// new vertex, and the new primitive to a transform.
pub proof fn lemma_absorb_wf(nodes: Seq<Node>, w: WalkView, g: Triangles)
    requires
        waiting(nodes, w),
        g.wf(),
        w.mesh.fits(g),
    ensures
        w.mesh.absorb(w.pending, g).wf(),
{
    let m = w.mesh.absorb(w.pending, g);
    let base = w.mesh.vertices.len();
    assert forall|i: int| 0 <= i < m.indices.len() implies #[trigger] m.indices[i] < m.vertices.len() by {
        if i >= w.mesh.indices.len() {
            let k = i - w.mesh.indices.len();
            assert(g.indices[k] < g.vertices.len());
        }
    }
    assert forall|i: int| 0 <= i < m.vertices.len() implies (#[trigger] m.vertices[i]).prim_id
        < m.primitives.len() by {
        if i < base {
            assert(m.vertices[i] == w.mesh.vertices[i]);
        }
    }
    assert forall|i: int| 0 <= i < m.primitives.len() implies (#[trigger] m.primitives[i]).transform
        < m.transforms.len() by {
        if i < w.mesh.primitives.len() {
            assert(m.primitives[i] == w.mesh.primitives[i]);
        }
    }
}

/// A walk that waits as `waiting` says comes, whatever it is answered, to
/// a step that is sound. So the transforms of every mesh that a walk
/// finishes with are the records of the runs of equal transforms among the
/// paths of the scene, one record to a run, and every reference in it has
/// its target.
pub proof fn lemma_resume_sound(
    nodes: Seq<Node>,
    w: WalkView,
    reply: Result<Triangles, GeometryError>,
)
    requires
        waiting(nodes, w),
        reply matches Ok(g) ==> g.wf(),
    ensures
        sound(nodes, resume(nodes, w, reply)),
{
    match settle(w, reply) {
        Ok(m) => {
            lemma_absorb_wf(nodes, w, reply->Ok_0);
            if w.stroking {
                lemma_advance_sound(nodes, w.cursor + 1, false, m);
            } else {
                lemma_advance_sound(nodes, w.cursor, true, m);
            }
        },
        Err(e) => {
            if w.stroking {
                lemma_advance_sound(nodes, w.cursor + 1, false, w.mesh);
            }
        },
    }
}

/// The walk over a scene of no more than `MAX_NODES` nodes starts with a
/// step that is sound.
pub proof fn lemma_start_sound(nodes: Seq<Node>)
    requires
        nodes.len() <= MAX_NODES,
    ensures
        sound(nodes, start(nodes)),
{
    assert(nodes.take(0) == Seq::<Node>::empty());
    assert(packed_runs(Seq::<Transform>::empty()) == Seq::<GpuTransform>::empty());
    lemma_advance_sound(nodes, 0, false, Mesh::empty());
}

/// Every step of every walk is sound: whatever the passes are answered,
/// as long as every index of the triangles given refers to a vertex given
/// with it.
pub proof fn lemma_every_step_sound(
    nodes: Seq<Node>,
    replies: Seq<Result<Triangles, GeometryError>>,
)
    requires
        nodes.len() <= MAX_NODES,
        forall|i: int| 0 <= i < replies.len() ==> (#[trigger] replies[i] matches Ok(g) ==> g.wf()),
    ensures
        sound(nodes, after(nodes, replies)),
    decreases replies.len(),
{
    if replies.len() == 0 {
        lemma_start_sound(nodes);
    } else {
        let earlier = replies.drop_last();
        assert forall|i: int| 0 <= i < earlier.len() implies (#[trigger] earlier[i] matches Ok(g)
            ==> g.wf()) by {
            assert(earlier[i] == replies[i]);
        }
        lemma_every_step_sound(nodes, earlier);
        match after(nodes, earlier) {
            StepView::Run(w, _) => {
                assert(replies.last() == replies[replies.len() - 1]);
                lemma_resume_sound(nodes, w, replies.last());
            },
            StepView::Finished(_) => {},
        }
    }
}

/// A walk that goes on between two passes does not fail: it comes to the
/// next pass or to the finished mesh.
pub proof fn lemma_advance_goes_on(nodes: Seq<Node>, i: int, filled: bool, m: Mesh)
    ensures
        !(advance(nodes, i, filled, m) matches StepView::Finished(Err(_))),
    decreases
            nodes.len() - i,
            (if filled {
                0int
            } else {
                1int
            }),
{
    if 0 <= i < nodes.len() {
        match nodes[i] {
            Node::Other => {
                lemma_advance_goes_on(nodes, i + 1, false, m);
            },
            Node::Path(p) => {
                if !filled {
                    let noted = Mesh {
                        transforms: note_transform(
                            m.transforms,
                            path_transforms(nodes.take(i)),
                            p.transform,
                        ),
                        ..m
                    };
                    if p.fill is None {
                        lemma_advance_goes_on(nodes, i, true, noted);
                    }
                } else {
                    if p.stroke is None {
                        lemma_advance_goes_on(nodes, i + 1, false, m);
                    }
                }
            },
        }
    }
}

/// A walk ends in an error exactly when the pass that it waited for was a
/// fill pass and gave an error, or more vertices than the mesh has room for;
/// the error is that one, and no mesh comes with it.
pub proof fn lemma_failure_is_of_fill(
    nodes: Seq<Node>,
    w: WalkView,
    reply: Result<Triangles, GeometryError>,
    e: GeometryError,
)
    ensures
        resume(nodes, w, reply) == StepView::Finished(Err(e)) <==> !w.stroking && settle(w, reply)
            == Err::<Mesh, GeometryError>(e),
{
    match settle(w, reply) {
        Ok(m) => {
            if w.stroking {
                lemma_advance_goes_on(nodes, w.cursor + 1, false, m);
            } else {
                lemma_advance_goes_on(nodes, w.cursor, true, m);
            }
        },
        Err(_) => {
            if w.stroking {
                lemma_advance_goes_on(nodes, w.cursor + 1, false, w.mesh);
            }
        },
    }
}

/// A stroke pass that fails leaves nothing in the mesh, neither its
/// primitive nor a vertex nor an index, and the walk goes on with the next
/// node as if the path had had no stroke.
pub proof fn lemma_failed_stroke_is_left_out(
    nodes: Seq<Node>,
    i: int,
    m: Mesh,
    p: Path,
    stroke: Stroke,
    e: GeometryError,
)
    requires
        0 <= i < nodes.len(),
        nodes[i] == Node::Path(p),
        p.stroke == Some(stroke),
    ensures
        advance(nodes, i, true, m) matches StepView::Run(w, pass) && w.stroking && w.mesh == m
            && pass == stroke_pass(p, stroke) && resume(nodes, w, Err(e)) == advance(
            nodes,
            i + 1,
            false,
            m,
        ),
        !(advance(nodes, i + 1, false, m) matches StepView::Finished(Err(_))),
{
    lemma_advance_goes_on(nodes, i + 1, false, m);
}

/// A path with a fill and a stroke, whose two passes both give triangles
/// that the mesh has room for, adds exactly two primitives to the mesh, the
/// one of the fill and then the one of the stroke. Both refer to the record
/// of the path's transform. Every vertex of the fill pass carries the index
/// of the first, every vertex of the stroke pass the index of the second.
pub proof fn lemma_fill_then_stroke(
    nodes: Seq<Node>,
    i: int,
    m: Mesh,
    p: Path,
    fill: Fill,
    stroke: Stroke,
    filled: Triangles,
    stroked: Triangles,
)
    requires
        between(nodes, i, false, m),
        i < nodes.len(),
        nodes[i] == Node::Path(p),
        p.fill == Some(fill),
        p.stroke == Some(stroke),
        m.vertices.len() + filled.vertices.len() + stroked.vertices.len() <= u32::MAX,
    ensures
        ({
            let first = m.primitives.len();
            let transforms = packed_runs(path_transforms(nodes.take(i + 1)));
            let record = (transforms.len() - 1) as u32;
            let done = Mesh {
                vertices: m.vertices + tag_all(filled.vertices, first as u32) + tag_all(
                    stroked.vertices,
                    (first + 1) as u32,
                ),
                indices: m.indices + offset_all(filled.indices, m.vertices.len()) + offset_all(
                    stroked.indices,
                    m.vertices.len() + filled.vertices.len(),
                ),
                transforms,
                primitives: m.primitives.push(
                    GpuPrimitive {
                        transform: record,
                        color: paint_color(fill.paint, fill.opacity),
                    },
                ).push(
                    GpuPrimitive {
                        transform: record,
                        color: paint_color(stroke.paint, stroke.opacity),
                    },
                ),
            };
            &&& transforms[record as int] == packed(p.transform)
            &&& advance(nodes, i, false, m) matches StepView::Run(w1, pass1)
            &&& !w1.stroking && pass1 == fill_pass(p)
            &&& resume(nodes, w1, Ok(filled)) matches StepView::Run(w2, pass2)
            &&& w2.stroking && pass2 == stroke_pass(p, stroke)
            &&& resume(nodes, w2, Ok(stroked)) == advance(nodes, i + 1, false, done)
        }),
{
    lemma_note_transform(nodes, i, p);
    let noted = Mesh {
        transforms: note_transform(m.transforms, path_transforms(nodes.take(i)), p.transform),
        ..m
    };
    let w1 = WalkView {
        cursor: i,
        stroking: false,
        mesh: noted,
        pending: primitive_for(noted, paint_color(fill.paint, fill.opacity)),
    };
    assert(advance(nodes, i, false, m) == StepView::Run(w1, fill_pass(p)));
    let m2 = noted.absorb(w1.pending, filled);
    assert(settle(w1, Ok(filled)) == Ok::<Mesh, GeometryError>(m2));
    let w2 = WalkView {
        cursor: i,
        stroking: true,
        mesh: m2,
        pending: primitive_for(m2, paint_color(stroke.paint, stroke.opacity)),
    };
    assert(resume(nodes, w1, Ok(filled)) == advance(nodes, i, true, m2));
    assert(advance(nodes, i, true, m2) == StepView::Run(w2, stroke_pass(p, stroke)));
    let m4 = m2.absorb(w2.pending, stroked);
    assert(m2.vertices.len() == m.vertices.len() + filled.vertices.len());
    assert(settle(w2, Ok(stroked)) == Ok::<Mesh, GeometryError>(m4));
    assert(resume(nodes, w2, Ok(stroked)) == advance(nodes, i + 1, false, m4));
}

/// Between two passes the mesh only grows, and gains neither a vertex nor
/// an index nor a primitive.
pub proof fn lemma_advance_extends(nodes: Seq<Node>, i: int, filled: bool, m: Mesh)
    ensures
        mesh_of(advance(nodes, i, filled, m)) matches Some(later) && extends(later, m)
            && later.vertices == m.vertices && later.indices == m.indices && later.primitives
            == m.primitives,
    decreases
            nodes.len() - i,
            (if filled {
                0int
            } else {
                1int
            }),
{
    if 0 <= i < nodes.len() {
        match nodes[i] {
            Node::Other => {
                lemma_advance_extends(nodes, i + 1, false, m);
            },
            Node::Path(p) => {
                if !filled {
                    let noted = Mesh {
                        transforms: note_transform(
                            m.transforms,
                            path_transforms(nodes.take(i)),
                            p.transform,
                        ),
                        ..m
                    };
                    if p.fill is None {
                        lemma_advance_extends(nodes, i, true, noted);
                    }
                } else {
                    if p.stroke is None {
                        lemma_advance_extends(nodes, i + 1, false, m);
                    }
                }
            },
        }
    }
}

/// The tables and buffers only ever grow at their ends. Whatever a walk is
/// answered, the mesh of its next step holds all that its mesh held, at the
/// same indices.
pub proof fn lemma_resume_extends(
    nodes: Seq<Node>,
    w: WalkView,
    reply: Result<Triangles, GeometryError>,
)
    ensures
        mesh_of(resume(nodes, w, reply)) matches Some(later) ==> extends(later, w.mesh),
{
    match settle(w, reply) {
        Ok(m) => {
            if w.stroking {
                lemma_advance_extends(nodes, w.cursor + 1, false, m);
            } else {
                lemma_advance_extends(nodes, w.cursor, true, m);
            }
        },
        Err(_) => {
            if w.stroking {
                lemma_advance_extends(nodes, w.cursor + 1, false, w.mesh);
            }
        },
    }
}

/// The mesh of a walk has one primitive for each pass that gave triangles
/// which went into it, and no other: so has the mesh that the walk finishes
/// with.
pub proof fn lemma_primitives_counted(
    nodes: Seq<Node>,
    replies: Seq<Result<Triangles, GeometryError>>,
)
    ensures
        mesh_of(after(nodes, replies)) matches Some(m) ==> m.primitives.len() == passes_taken(
            nodes,
            replies,
        ),
    decreases replies.len(),
{
    if replies.len() == 0 {
        lemma_advance_extends(nodes, 0, false, Mesh::empty());
    } else {
        let earlier = replies.drop_last();
        lemma_primitives_counted(nodes, earlier);
        match after(nodes, earlier) {
            StepView::Run(w, _) => {
                match settle(w, replies.last()) {
                    Ok(m) => {
                        if w.stroking {
                            lemma_advance_extends(nodes, w.cursor + 1, false, m);
                        } else {
                            lemma_advance_extends(nodes, w.cursor, true, m);
                        }
                    },
                    Err(_) => {
                        if w.stroking {
                            lemma_advance_extends(nodes, w.cursor + 1, false, w.mesh);
                        }
                    },
                }
            },
            StepView::Finished(_) => {},
        }
    }
}

/// A finished mesh has as many transforms as there are places, among the
/// paths of the scene in the order of the walk, where a run of equal
/// transforms starts.
pub proof fn lemma_transforms_counted(nodes: Seq<Node>, m: Mesh)
    requires
        sound(nodes, StepView::Finished(Ok(m))),
    ensures
        run_starts(path_transforms(nodes)).finite(),
        m.transforms.len() == run_starts(path_transforms(nodes)).len(),
{
    lemma_runs_counted(path_transforms(nodes));
}

/// A fill whose paint is no plain colour is drawn all the same: its pass is
/// run like any other, and its primitive has the fallback colour.
pub proof fn lemma_linked_fill_is_drawn(nodes: Seq<Node>, i: int, m: Mesh, p: Path, fill: Fill)
    requires
        0 <= i < nodes.len(),
        nodes[i] == Node::Path(p),
        p.fill == Some(fill),
        fill.paint is Link,
    ensures
        advance(nodes, i, false, m) matches StepView::Run(w, pass) && !w.stroking && pass
            == fill_pass(p) && w.pending.color == spec_fallback_color(),
{
}

/// The transforms of the paths among the first `k` nodes stand at the front
/// of the transforms of all the paths.
pub proof fn lemma_path_transforms_prefix(nodes: Seq<Node>, k: int)
    requires
        0 <= k <= nodes.len(),
    ensures
        path_transforms(nodes.take(k)).len() <= path_transforms(nodes).len(),
        path_transforms(nodes.take(k)) == path_transforms(nodes).take(
            path_transforms(nodes.take(k)).len() as int,
        ),
    decreases nodes.len() - k,
{
    let all = path_transforms(nodes);
    if k == nodes.len() {
        assert(nodes.take(k) == nodes);
        assert(all.take(all.len() as int) == all);
    } else {
        lemma_path_transforms_prefix(nodes, k + 1);
        lemma_path_transforms_take(nodes, k);
        let shorter = path_transforms(nodes.take(k));
        let longer = path_transforms(nodes.take(k + 1));
        assert(longer.take(shorter.len() as int) == shorter);
        assert(all.take(longer.len() as int).take(shorter.len() as int) == all.take(
            shorter.len() as int,
        ));
    }
}

/// The primitive of a pass refers to the transform of its own path. Its
/// index is the index of the run that the path lies in, among the paths of
/// the whole scene in the order of the walk; there the finished mesh has the
/// record of the path's transform.
pub proof fn lemma_pass_refers_to_own_transform(nodes: Seq<Node>, w: WalkView, p: Path)
    requires
        waiting(nodes, w),
        nodes[w.cursor] == Node::Path(p),
    ensures
        ({
            let all = path_transforms(nodes);
            let place = path_transforms(nodes.take(w.cursor)).len() as int;
            let index = w.pending.transform as int;
            &&& place < all.len()
            &&& all[place] == p.transform
            &&& index == run_index(all, place)
            &&& w.mesh.transforms[index] == packed(p.transform)
            &&& index < packed_runs(all).len()
            &&& packed_runs(all)[index] == packed(p.transform)
        }),
{
    let all = path_transforms(nodes);
    let before = path_transforms(nodes.take(w.cursor));
    let upto = path_transforms(nodes.take(w.cursor + 1));
    lemma_path_transforms_take(nodes, w.cursor);
    lemma_path_transforms_prefix(nodes, w.cursor + 1);
    assert(upto == before.push(p.transform));
    assert(all.take(before.len() as int + 1) == upto);
    lemma_run_index(all, before.len() as int, before.len() as int);
}

} // verus!
