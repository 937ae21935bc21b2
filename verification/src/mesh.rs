//! The mesh: vertices, indices, and the two tables of primitives and
//! transforms. A vertex names its primitive by index, a primitive its
//! transform.

use vstd::prelude::*;

use crate::geom::Point;
use crate::paint::GpuColor;
use crate::scene::Transform;

verus! {

/// A vertex of the mesh: its two coordinates, as single-precision bit
/// patterns, and the index of the primitive that it belongs to.
#[derive(Clone, Copy, Debug, PartialEq, Eq)]
pub struct GpuVertex {
    pub position: [u32; 2],
    pub prim_id: u32,
}

/// One fill or stroke pass of one path: the index of its transform and its
/// colour.
#[derive(Clone, Copy, Debug, PartialEq, Eq, Structural)]
pub struct GpuPrimitive {
    pub transform: u32,
    pub color: GpuColor,
}

/// A transform laid out in two rows of four: `a b c d` and `e f 0 0`.
#[derive(Clone, Copy, Debug, PartialEq, Eq)]
pub struct GpuTransform {
    pub data0: [u32; 4],
    pub data1: [u32; 4],
}

/// The vertex at `position` that belongs to primitive `prim_id`.
pub open spec fn tagged(position: Point, prim_id: u32) -> GpuVertex {
    GpuVertex { position: [position.x, position.y], prim_id }
}

/// The vertices of one primitive: the positions, each tagged with the
/// primitive's index.
pub open spec fn tag_all(positions: Seq<Point>, prim_id: u32) -> Seq<GpuVertex> {
    Seq::new(positions.len(), |i: int| tagged(positions[i], prim_id))
}

/// The indices of one pass, each moved past the `base` vertices that the mesh
/// held before the pass.
pub open spec fn offset_all(indices: Seq<u32>, base: nat) -> Seq<u32> {
    Seq::new(indices.len(), |i: int| (base + indices[i]) as u32)
}

/// The two rows of `t`; the two entries left over are positive zero.
pub open spec fn packed(t: Transform) -> GpuTransform {
    GpuTransform { data0: [t.a, t.b, t.c, t.d], data1: [t.e, t.f, 0, 0] }
}

impl GpuPrimitive {
    pub fn new(transform_idx: u32, color: GpuColor) -> (p: GpuPrimitive)
        ensures
            p == (GpuPrimitive { transform: transform_idx, color }),
    {
        GpuPrimitive { transform: transform_idx, color }
    }
}

impl GpuTransform {
    pub fn new(t: Transform) -> (g: GpuTransform)
        ensures
            g == packed(t),
    {
        GpuTransform { data0: [t.a, t.b, t.c, t.d], data1: [t.e, t.f, 0, 0] }
    }
}

/// Makes the vertices of one pass: each carries the index of the pass's
/// primitive.
pub struct VertexCtor {
    pub prim_id: u32,
}

impl VertexCtor {
    pub fn new_vertex(&mut self, position: Point) -> (v: GpuVertex)
        ensures
            v == tagged(position, old(self).prim_id),
            *final(self) == *old(self),
    {
        GpuVertex { position: [position.x, position.y], prim_id: self.prim_id }
    }
}

/// The triangles of one pass as sequences: the positions of its vertices,
/// and three indices per triangle that count from the first of them.
pub struct Triangles {
    pub vertices: Seq<Point>,
    pub indices: Seq<u32>,
}

impl Triangles {
    /// Every index refers to a vertex of the same pass.
    pub open spec fn wf(self) -> bool {
        forall|i: int| 0 <= i < self.indices.len() ==> #[trigger] self.indices[i] < self.vertices.len()
    }
}

/// The triangles that a triangulator made of one pass. Every index refers
/// to one of the vertices.
#[derive(Debug)]
pub struct Geometry {
    vertices: Vec<Point>,
    indices: Vec<u32>,
}

impl View for Geometry {
    type V = Triangles;

    closed spec fn view(&self) -> Triangles {
        Triangles { vertices: self.vertices@, indices: self.indices@ }
    }
}

impl Geometry {
    #[verifier::type_invariant]
    spec fn inv(self) -> bool {
        self@.wf()
    }

    /// `vertices` and `indices` as the geometry of one pass, unless an index
    /// refers to no vertex.
    pub fn new(vertices: Vec<Point>, indices: Vec<u32>) -> (r: Option<Geometry>)
        ensures
            r is Some <==> (Triangles { vertices: vertices@, indices: indices@ }).wf(),
            r matches Some(g) ==> g@ == (Triangles { vertices: vertices@, indices: indices@ }),
    {
        let mut i: usize = 0;
        while i < indices.len()
            invariant
                i <= indices.len(),
                forall|j: int| 0 <= j < i ==> #[trigger] indices@[j] < vertices@.len(),
            decreases indices.len() - i,
        {
            if indices[i] as usize >= vertices.len() {
                proof {
                    let t = Triangles { vertices: vertices@, indices: indices@ };
                    assert(!(t.indices[i as int] < t.vertices.len()));
                }
                return None;
            }
            i = i + 1;
        }
        Some(Geometry { vertices, indices })
    }

    pub fn vertices(&self) -> (v: &Vec<Point>)
        ensures
            v@ == self@.vertices,
            self@.wf(),
    {
        proof {
            use_type_invariant(self);
        }
        &self.vertices
    }

    pub fn indices(&self) -> (v: &Vec<u32>)
        ensures
            v@ == self@.indices,
            self@.wf(),
    {
        proof {
            use_type_invariant(self);
        }
        &self.indices
    }
}

/// The mesh as four sequences.
#[verifier::ext_equal]
pub struct Mesh {
    pub vertices: Seq<GpuVertex>,
    pub indices: Seq<u32>,
    pub transforms: Seq<GpuTransform>,
    pub primitives: Seq<GpuPrimitive>,
}

impl Mesh {
    pub open spec fn empty() -> Mesh {
        Mesh {
            vertices: Seq::empty(),
            indices: Seq::empty(),
            transforms: Seq::empty(),
            primitives: Seq::empty(),
        }
    }

    /// Every reference in the mesh has a target: an index a vertex, a vertex
    /// a primitive, a primitive a transform. No more vertices are held than
    /// an index can tell apart.
    pub open spec fn wf(self) -> bool {
        &&& self.vertices.len() <= u32::MAX
        &&& forall|i: int| 0 <= i < self.indices.len() ==> #[trigger] self.indices[i] < self.vertices.len()
        &&& forall|i: int|
            0 <= i < self.vertices.len() ==> (#[trigger] self.vertices[i]).prim_id < self.primitives.len()
        &&& forall|i: int|
            0 <= i < self.primitives.len() ==> (#[trigger] self.primitives[i]).transform
                < self.transforms.len()
    }

    /// Whether the mesh has room for the vertices of `g`.
    pub open spec fn fits(self, g: Triangles) -> bool {
        self.vertices.len() + g.vertices.len() <= u32::MAX
    }

    /// The mesh with one more pass in it: the primitive of the pass, and its
    /// triangles, each vertex tagged with the index that the primitive gets,
    /// each index moved past the vertices that were there before.
    pub open spec fn absorb(self, prim: GpuPrimitive, g: Triangles) -> Mesh {
        Mesh {
            vertices: self.vertices + tag_all(g.vertices, self.primitives.len() as u32),
            indices: self.indices + offset_all(g.indices, self.vertices.len()),
            transforms: self.transforms,
            primitives: self.primitives.push(prim),
        }
    }
}

/// The finished mesh: the vertex buffer, the index buffer, and the two
/// tables that the vertices reach through `prim_id`.
#[derive(Debug, PartialEq, Eq)]
pub struct TessellationData {
    pub vertices: Vec<GpuVertex>,
    pub indices: Vec<u32>,
    pub transforms: Vec<GpuTransform>,
    pub primitives: Vec<GpuPrimitive>,
}

impl View for TessellationData {
    type V = Mesh;

    open spec fn view(&self) -> Mesh {
        Mesh {
            vertices: self.vertices@,
            indices: self.indices@,
            transforms: self.transforms@,
            primitives: self.primitives@,
        }
    }
}

impl TessellationData {
    /// The mesh of nothing.
    pub fn new() -> (data: TessellationData)
        ensures
            data@ == Mesh::empty(),
    {
        TessellationData {
            vertices: Vec::new(),
            indices: Vec::new(),
            transforms: Vec::new(),
            primitives: Vec::new(),
        }
    }
}

/// Appends the triangles of `g` to the two buffers, for the pass that
/// `ctor` makes the vertices of.
pub fn append_geometry(
    vertices: &mut Vec<GpuVertex>,
    indices: &mut Vec<u32>,
    ctor: &mut VertexCtor,
    g: &Geometry,
)
    requires
        old(vertices)@.len() + g@.vertices.len() <= u32::MAX,
    ensures
        final(vertices)@ == old(vertices)@ + tag_all(g@.vertices, old(ctor).prim_id),
        final(indices)@ == old(indices)@ + offset_all(g@.indices, old(vertices)@.len()),
        *final(ctor) == *old(ctor),
{
    let points = g.vertices();
    let local = g.indices();
    let base: u32 = vertices.len() as u32;
    let ghost before = vertices@;
    let ghost before_indices = indices@;
    let ghost prim_id = ctor.prim_id;
    let mut i: usize = 0;
    while i < points.len()
        invariant
            i <= points.len(),
            points@ == g@.vertices,
            ctor.prim_id == prim_id,
            vertices@ == before + tag_all(g@.vertices.take(i as int), prim_id),
        decreases points.len() - i,
    {
        let v = ctor.new_vertex(points[i]);
        vertices.push(v);
        i = i + 1;
    }
    let mut k: usize = 0;
    while k < local.len()
        invariant
            k <= local.len(),
            local@ == g@.indices,
            g@.wf(),
            base == before.len(),
            before.len() + g@.vertices.len() <= u32::MAX,
            indices@ == before_indices + offset_all(g@.indices.take(k as int), before.len()),
        decreases local.len() - k,
    {
        indices.push(base + local[k]);
        k = k + 1;
    }
    assert(g@.vertices.take(points.len() as int) == g@.vertices);
    assert(g@.indices.take(local.len() as int) == g@.indices);
}

} // verus!
