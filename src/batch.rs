//! Batching the strokes of many polylines into one indexed triangle mesh held in
//! a fixed-capacity vertex/index buffer pair.
use vstd::prelude::*;

use crate::geometry::{Color, Polyline};
use crate::stroke::{is_sharp, stroke, stroke_of, triangles_within, StrokeStyle};

verus! {

/// Size in bytes of one vertex in the GPU vertex buffer: two position floats and
/// three color floats, tightly packed.
pub const VERTEX_SIZE: u32 = 20;

/// Size in bytes of one index in the GPU index buffer.
pub const INDEX_SIZE: u32 = 4;

/// Size in bytes of each of the two GPU buffers of a batch.
pub const BUFFER_SIZE: u32 = 32768;

/// A vertex of the combined mesh. Every field is the bit pattern of an IEEE-754
/// single-precision number.
#[derive(Clone, Copy, Debug, PartialEq, Eq, Structural)]
pub struct Vertex {
    pub x: u32,
    pub y: u32,
    pub color: Color,
}

/// The stroke of one polyline in its own vertex numbering: vertex positions,
/// a triangle list indexing them from 0, and the polyline's color.
#[derive(Debug)]
pub struct StrokeMesh {
    pub positions: Vec<(u32, u32)>,
    pub indices: Vec<u16>,
    pub color: Color,
}

pub ghost struct MeshView {
    pub positions: Seq<(u32, u32)>,
    pub indices: Seq<u16>,
    pub color: Color,
}

impl View for StrokeMesh {
    type V = MeshView;

    open spec fn view(&self) -> MeshView {
        MeshView { positions: self.positions@, indices: self.indices@, color: self.color }
    }
}

impl StrokeMesh {
    pub fn new(positions: Vec<(u32, u32)>, indices: Vec<u16>, color: Color) -> (r: StrokeMesh)
        ensures
            r@ == (MeshView { positions: positions@, indices: indices@, color }),
    {
        StrokeMesh { positions, indices, color }
    }
}

/// Every index of the mesh names one of its vertices.
pub open spec fn mesh_valid(m: MeshView) -> bool {
    forall|j: int| 0 <= j < m.indices.len() ==> (#[trigger] m.indices[j] as int) < m.positions.len()
}

/// The first of the first `n` meshes that is not valid.
pub open spec fn first_invalid(ms: Seq<MeshView>, n: nat) -> Option<int>
    decreases n,
{
    if n == 0 {
        None
    } else {
        match first_invalid(ms, (n - 1) as nat) {
            Some(k) => Some(k),
            None => if mesh_valid(ms[n - 1]) {
                None
            } else {
                Some(n - 1)
            },
        }
    }
}

/// Number of vertices of the first `n` meshes.
pub open spec fn vertex_total(ms: Seq<MeshView>, n: nat) -> int
    decreases n,
{
    if n == 0 {
        0
    } else {
        vertex_total(ms, (n - 1) as nat) + ms[n - 1].positions.len()
    }
}

/// Number of indices of the first `n` meshes.
pub open spec fn index_total(ms: Seq<MeshView>, n: nat) -> int
    decreases n,
{
    if n == 0 {
        0
    } else {
        index_total(ms, (n - 1) as nat) + ms[n - 1].indices.len()
    }
}

/// The vertices of one mesh, each in the mesh's flat color.
pub open spec fn mesh_vertices(m: MeshView) -> Seq<Vertex> {
    m.positions.map_values(|p: (u32, u32)| Vertex { x: p.0, y: p.1, color: m.color })
}

/// The indices of one mesh, moved up by `offset`.
pub open spec fn shifted_indices(m: MeshView, offset: int) -> Seq<int> {
    m.indices.map_values(|i: u16| i as int + offset)
}

/// The vertices of the first `n` meshes, one after another.
pub open spec fn batch_vertices(ms: Seq<MeshView>, n: nat) -> Seq<Vertex>
    decreases n,
{
    if n == 0 {
        seq![]
    } else {
        batch_vertices(ms, (n - 1) as nat) + mesh_vertices(ms[n - 1])
    }
}

/// The indices of the first `n` meshes, one after another, each mesh's moved up
/// by the number of vertices before it.
pub open spec fn batch_indices(ms: Seq<MeshView>, n: nat) -> Seq<int>
    decreases n,
{
    if n == 0 {
        seq![]
    } else {
        batch_indices(ms, (n - 1) as nat) + shifted_indices(
            ms[n - 1],
            vertex_total(ms, (n - 1) as nat),
        )
    }
}

proof fn lemma_batch_lengths(ms: Seq<MeshView>, n: nat)
    ensures
        batch_vertices(ms, n).len() == vertex_total(ms, n),
        batch_indices(ms, n).len() == index_total(ms, n),
        vertex_total(ms, n) >= 0,
        index_total(ms, n) >= 0,
    decreases n,
{
    if n > 0 {
        lemma_batch_lengths(ms, (n - 1) as nat);
    }
}

proof fn lemma_totals_monotone(ms: Seq<MeshView>, k: nat, n: nat)
    requires
        k <= n,
    ensures
        vertex_total(ms, k) <= vertex_total(ms, n),
        index_total(ms, k) <= index_total(ms, n),
    decreases n,
{
    if k < n {
        lemma_totals_monotone(ms, k, (n - 1) as nat);
    }
}

/// Why a tessellation or an upload failed. A failed call leaves the buffer as it
/// was.
#[derive(Clone, Copy, Debug, PartialEq, Eq, Structural)]
pub enum TessellateError {
    /// The miter limit is below 1.
    MiterLimitBelowOne,
    /// Polyline `polyline` has fewer than two points.
    TooFewPoints { polyline: usize, points: usize },
    /// The tessellator failed on polyline `polyline`.
    StrokeFailed { polyline: usize },
    /// The stroke of polyline `polyline` has an index past its own vertices.
    MalformedStroke { polyline: usize },
    /// The combined mesh needs `required` vertices; the buffer holds `capacity`.
    VertexOverflow { required: u128, capacity: u32 },
    /// The combined mesh needs `required` indices; the buffer holds `capacity`.
    IndexOverflow { required: u128, capacity: u32 },
}

impl TessellateError {
    /// For a capacity error, by how much the combined mesh exceeds the buffer.
    pub fn overflow(&self) -> (r: Option<u128>)
        ensures
            r == (match *self {
                TessellateError::VertexOverflow { required, capacity } => if required > capacity {
                    Some((required - capacity) as u128)
                } else {
                    Some(0u128)
                },
                TessellateError::IndexOverflow { required, capacity } => if required > capacity {
                    Some((required - capacity) as u128)
                } else {
                    Some(0u128)
                },
                _ => None,
            }),
    {
        match *self {
            TessellateError::VertexOverflow { required, capacity } => if required > capacity as u128 {
                Some(required - capacity as u128)
            } else {
                Some(0)
            },
            TessellateError::IndexOverflow { required, capacity } => if required > capacity as u128 {
                Some(required - capacity as u128)
            } else {
                Some(0)
            },
            _ => None,
        }
    }
}

/// What a batch buffer holds: its fixed capacities, the vertices of the current
/// mesh, and its indices.
pub ghost struct BufferView {
    pub vertex_capacity: u32,
    pub index_capacity: u32,
    pub vertices: Seq<Vertex>,
    pub indices: Seq<int>,
}

/// The outcome of uploading `ms` into a buffer holding `cur`: the buffer after
/// the call, and the result. Meshes are checked first, then the vertex total,
/// then the index total; on any failure the buffer is left as it was, and on
/// success its contents are replaced whole.
pub open spec fn upload_outcome(cur: BufferView, ms: Seq<MeshView>) -> (
    BufferView,
    Result<(), TessellateError>,
) {
    let n = ms.len();
    match first_invalid(ms, n) {
        Some(k) => (cur, Err(TessellateError::MalformedStroke { polyline: k as usize })),
        None => if vertex_total(ms, n) > cur.vertex_capacity {
            (
                cur,
                Err(
                    TessellateError::VertexOverflow {
                        required: vertex_total(ms, n) as u128,
                        capacity: cur.vertex_capacity,
                    },
                ),
            )
        } else if index_total(ms, n) > cur.index_capacity {
            (
                cur,
                Err(
                    TessellateError::IndexOverflow {
                        required: index_total(ms, n) as u128,
                        capacity: cur.index_capacity,
                    },
                ),
            )
        } else {
            (
                BufferView {
                    vertices: batch_vertices(ms, n),
                    indices: batch_indices(ms, n),
                    ..cur
                },
                Ok(()),
            )
        },
    }
}

/// The views of a sequence of meshes.
pub open spec fn mesh_views(meshes: Seq<StrokeMesh>) -> Seq<MeshView> {
    meshes.map_values(|m: StrokeMesh| m@)
}

proof fn lemma_first_invalid_none(ms: Seq<MeshView>, n: nat, k: int)
    requires
        first_invalid(ms, n) is None,
        0 <= k < n,
    ensures
        mesh_valid(ms[k]),
    decreases n,
{
    if k < n - 1 {
        lemma_first_invalid_none(ms, (n - 1) as nat, k);
    }
}

proof fn lemma_first_invalid_stable(ms: Seq<MeshView>, k: nat, n: nat)
    requires
        k <= n,
        first_invalid(ms, k) is Some,
    ensures
        first_invalid(ms, n) == first_invalid(ms, k),
    decreases n,
{
    if k < n {
        lemma_first_invalid_stable(ms, k, (n - 1) as nat);
    }
}

/// The first of the first `n` polylines that has fewer than two points.
pub open spec fn first_short(pls: Seq<Polyline>, n: nat) -> Option<int>
    decreases n,
{
    if n == 0 {
        None
    } else {
        match first_short(pls, (n - 1) as nat) {
            Some(k) => Some(k),
            None => if pls[n - 1].points@.len() < 2 {
                Some(n - 1)
            } else {
                None
            },
        }
    }
}

/// The first of the first `n` polylines whose sharp stroke with the miter limit
/// of `style` fails.
pub open spec fn first_failed(pls: Seq<Polyline>, style: StrokeStyle, n: nat) -> Option<int>
    decreases n,
{
    if n == 0 {
        None
    } else {
        match first_failed(pls, style, (n - 1) as nat) {
            Some(k) => Some(k),
            None => if stroke_of(pls[n - 1].points@, pls[n - 1].thickness, style.miter_limit) is None {
                Some(n - 1)
            } else {
                None
            },
        }
    }
}

/// The sharp stroke of `pl` with the miter limit of `style`, in its color.
pub open spec fn polyline_mesh(pl: Polyline, style: StrokeStyle) -> MeshView {
    match stroke_of(pl.points@, pl.thickness, style.miter_limit) {
        Some((positions, indices)) => MeshView { positions, indices, color: pl.color },
        None => MeshView { positions: seq![], indices: seq![], color: pl.color },
    }
}

/// The sharp strokes of `pls` with the miter limit of `style`.
pub open spec fn polyline_meshes(pls: Seq<Polyline>, style: StrokeStyle) -> Seq<MeshView> {
    pls.map_values(|pl: Polyline| polyline_mesh(pl, style))
}

/// The outcome of tessellating `pls` in a sharp `style` into a buffer holding
/// `cur`. The style is checked first, then every polyline's point count, then
/// each stroke in order; the strokes are then uploaded as `upload_outcome` says.
pub open spec fn tessellate_outcome(cur: BufferView, pls: Seq<Polyline>, style: StrokeStyle) -> (
    BufferView,
    Result<(), TessellateError>,
) {
    if style.miter_limit < 1 {
        (cur, Err(TessellateError::MiterLimitBelowOne))
    } else {
        match first_short(pls, pls.len()) {
            Some(k) => (
                cur,
                Err(
                    TessellateError::TooFewPoints {
                        polyline: k as usize,
                        points: pls[k].points@.len() as usize,
                    },
                ),
            ),
            None => match first_failed(pls, style, pls.len()) {
                Some(k) => (cur, Err(TessellateError::StrokeFailed { polyline: k as usize })),
                None => upload_outcome(cur, polyline_meshes(pls, style)),
            },
        }
    }
}

/// `m` can be the stroke of `pl` in `style`: it is in the polyline's color, its
/// indices name its own vertices in whole triangles, it has no more vertices than
/// a `u16` indexes, and in a sharp style it is exactly the named stroke.
pub open spec fn stroke_fits(pl: Polyline, style: StrokeStyle, m: MeshView) -> bool {
    &&& m.color == pl.color
    &&& m.positions.len() <= u16::MAX
    &&& triangles_within(m.indices, m.positions.len() as int)
    &&& is_sharp(style) ==> m == polyline_mesh(pl, style)
}

/// `ms` can be the strokes of `pls` in `style`, one for each.
pub open spec fn strokes_of(pls: Seq<Polyline>, style: StrokeStyle, ms: Seq<MeshView>) -> bool {
    &&& ms.len() == pls.len()
    &&& forall|k: int| 0 <= k < pls.len() ==> stroke_fits(pls[k], style, #[trigger] ms[k])
}

proof fn lemma_first_short_stable(pls: Seq<Polyline>, k: nat, n: nat)
    requires
        k <= n,
        first_short(pls, k) is Some,
    ensures
        first_short(pls, n) == first_short(pls, k),
    decreases n,
{
    if k < n {
        lemma_first_short_stable(pls, k, (n - 1) as nat);
    }
}

proof fn lemma_first_failed_stable(pls: Seq<Polyline>, style: StrokeStyle, k: nat, n: nat)
    requires
        k <= n,
        first_failed(pls, style, k) is Some,
    ensures
        first_failed(pls, style, n) == first_failed(pls, style, k),
    decreases n,
{
    if k < n {
        lemma_first_failed_stable(pls, style, k, (n - 1) as nat);
    }
}

/// A vertex/index buffer pair of fixed capacity. It holds the combined mesh of
/// the last successful upload, which is what the GPU buffers hold and draw.
pub struct PolylineBuffer {
    vertex_capacity: u32,
    index_capacity: u32,
    vertices: Vec<Vertex>,
    indices: Vec<u32>,
}

impl View for PolylineBuffer {
    type V = BufferView;

    closed spec fn view(&self) -> BufferView {
        BufferView {
            vertex_capacity: self.vertex_capacity,
            index_capacity: self.index_capacity,
            vertices: self.vertices@,
            indices: self.indices@.map_values(|i: u32| i as int),
        }
    }
}

impl PolylineBuffer {
    #[verifier::type_invariant]
    spec fn within_capacity(self) -> bool {
        &&& self.vertices@.len() <= self.vertex_capacity
        &&& self.indices@.len() <= self.index_capacity
    }

    /// An empty buffer pair with room for `vertex_capacity` vertices and
    /// `index_capacity` indices.
    pub fn new(vertex_capacity: u32, index_capacity: u32) -> (r: PolylineBuffer)
        ensures
            r@ == (BufferView { vertex_capacity, index_capacity, vertices: seq![], indices: seq![] }),
    {
        let r = PolylineBuffer { vertex_capacity, index_capacity, vertices: Vec::new(), indices: Vec::new() };
        assert(r@.indices =~= seq![]);
        r
    }

    /// An empty buffer pair of `size` bytes each.
    pub fn with_buffer_size(size: u32) -> (r: PolylineBuffer)
        ensures
            r@ == (BufferView {
                vertex_capacity: size / VERTEX_SIZE,
                index_capacity: size / INDEX_SIZE,
                vertices: seq![],
                indices: seq![],
            }),
    {
        PolylineBuffer::new(size / VERTEX_SIZE, size / INDEX_SIZE)
    }

    pub fn vertex_capacity(&self) -> (r: u32)
        ensures
            r == self@.vertex_capacity,
    {
        self.vertex_capacity
    }

    pub fn index_capacity(&self) -> (r: u32)
        ensures
            r == self@.index_capacity,
    {
        self.index_capacity
    }

    /// The vertices of the current mesh, to be written at the start of the GPU
    /// vertex buffer.
    pub fn vertices(&self) -> (r: &Vec<Vertex>)
        ensures
            r@ == self@.vertices,
    {
        &self.vertices
    }

    /// The indices of the current mesh, to be written at the start of the GPU
    /// index buffer.
    pub fn indices(&self) -> (r: &Vec<u32>)
        ensures
            r@.map_values(|i: u32| i as int) == self@.indices,
    {
        &self.indices
    }

    /// Number of indices that a draw of the current mesh covers; 0 draws nothing.
    pub fn index_count(&self) -> (r: u32)
        ensures
            r == self@.indices.len(),
    {
        proof {
            use_type_invariant(self);
        }
        self.indices.len() as u32
    }

    /// Replaces the contents with the strokes `meshes`, one after another: each
    /// mesh's vertices take its color, and its indices move up by the number of
    /// vertices before it. Fails, leaving the contents as they were, where a mesh
    /// indexes past its own vertices or the whole exceeds a capacity.
    pub fn upload(&mut self, meshes: &Vec<StrokeMesh>) -> (r: Result<(), TessellateError>)
        ensures
            (final(self)@, r) == upload_outcome(old(self)@, mesh_views(meshes@)),
    {
        let ghost ms = mesh_views(meshes@);
        let n = meshes.len();
        let mut vt: u128 = 0;
        let mut it: u128 = 0;
        let mut k: usize = 0;
        while k < n
            invariant
                n == meshes@.len(),
                ms == mesh_views(meshes@),
                k <= n,
                first_invalid(ms, k as nat) is None,
                vt == vertex_total(ms, k as nat),
                it == index_total(ms, k as nat),
                vt <= k * 0x1_0000_0000_0000_0000,
                it <= k * 0x1_0000_0000_0000_0000,
            decreases n - k,
        {
            let m = &meshes[k];
            assert(ms[k as int] == m@);
            let len = m.positions.len();
            let mut j: usize = 0;
            while j < m.indices.len()
                invariant
                    n == meshes@.len(),
                    ms == mesh_views(meshes@),
                    k < n,
                    ms[k as int] == m@,
                    first_invalid(ms, k as nat) is None,
                    len == m.positions@.len(),
                    j <= m.indices@.len(),
                    forall|jj: int| 0 <= jj < j ==> (#[trigger] m.indices@[jj] as int) < len,
                decreases m.indices.len() - j,
            {
                if m.indices[j] as usize >= len {
                    assert((ms[k as int].indices[j as int] as int) >= ms[k as int].positions.len());
                    assert(!mesh_valid(ms[k as int]));
                    assert(first_invalid(ms, (k + 1) as nat) == Some(k as int));
                    proof {
                        lemma_first_invalid_stable(ms, (k + 1) as nat, n as nat);
                    }
                    return Err(TessellateError::MalformedStroke { polyline: k });
                }
                j += 1;
            }
            assert(mesh_valid(ms[k as int]));
            vt = vt + len as u128;
            it = it + m.indices.len() as u128;
            k += 1;
        }
        if vt > self.vertex_capacity as u128 {
            return Err(TessellateError::VertexOverflow { required: vt, capacity: self.vertex_capacity });
        }
        if it > self.index_capacity as u128 {
            return Err(TessellateError::IndexOverflow { required: it, capacity: self.index_capacity });
        }
        let mut vertices: Vec<Vertex> = Vec::new();
        let mut indices: Vec<u32> = Vec::new();
        let mut k: usize = 0;
        while k < n
            invariant
                n == meshes@.len(),
                ms == mesh_views(meshes@),
                k <= n,
                first_invalid(ms, n as nat) is None,
                vertex_total(ms, n as nat) <= self.vertex_capacity,
                index_total(ms, n as nat) <= self.index_capacity,
                vertices@ == batch_vertices(ms, k as nat),
                indices@.map_values(|i: u32| i as int) == batch_indices(ms, k as nat),
            decreases n - k,
        {
            let m = &meshes[k];
            assert(ms[k as int] == m@);
            proof {
                lemma_batch_lengths(ms, k as nat);
                lemma_totals_monotone(ms, (k + 1) as nat, n as nat);
                lemma_first_invalid_none(ms, n as nat, k as int);
            }
            let offset = vertices.len() as u32;
            let ghost mv = mesh_vertices(m@);
            let mut j: usize = 0;
            while j < m.positions.len()
                invariant
                    j <= m.positions@.len(),
                    mv == mesh_vertices(m@),
                    vertices@ == batch_vertices(ms, k as nat) + mv.take(j as int),
                decreases m.positions.len() - j,
            {
                let p = m.positions[j];
                vertices.push(Vertex { x: p.0, y: p.1, color: m.color });
                assert(mv.take(j + 1) =~= mv.take(j as int).push(mv[j as int]));
                j += 1;
            }
            assert(mv.take(j as int) =~= mv);
            let ghost si = shifted_indices(m@, offset as int);
            let mut j: usize = 0;
            while j < m.indices.len()
                invariant
                    j <= m.indices@.len(),
                    si == shifted_indices(m@, offset as int),
                    offset == vertex_total(ms, k as nat),
                    vertex_total(ms, k as nat) + m@.positions.len() <= self.vertex_capacity,
                    mesh_valid(m@),
                    indices@.map_values(|i: u32| i as int) == batch_indices(ms, k as nat) + si.take(
                        j as int,
                    ),
                decreases m.indices.len() - j,
            {
                let i = m.indices[j] as u32;
                assert((m@.indices[j as int] as int) < m@.positions.len());
                let ghost before = indices@;
                indices.push(offset + i);
                assert(indices@.map_values(|i: u32| i as int) =~= before.map_values(
                    |i: u32| i as int,
                ).push((offset + i) as int));
                assert(si.take(j + 1) =~= si.take(j as int).push(si[j as int]));
                j += 1;
            }
            assert(si.take(j as int) =~= si);
            k += 1;
        }
        proof {
            lemma_batch_lengths(ms, n as nat);
        }
        *self = PolylineBuffer {
            vertex_capacity: self.vertex_capacity,
            index_capacity: self.index_capacity,
            vertices,
            indices,
        };
        Ok(())
    }

    /// Tessellates `polylines` in `style` and replaces the contents with their
    /// combined mesh (see `upload`). Fails, leaving the contents as they were,
    /// where the miter limit is below 1, a polyline has fewer than two points,
    /// the tessellator fails on a polyline, or the mesh does not fit. Strokes
    /// always index their own vertices, so the upload never finds one malformed.
    /// In a sharp style the outcome is `tessellate_outcome` exactly.
    pub fn tessellate(&mut self, polylines: &[Polyline], style: StrokeStyle) -> (r: Result<
        (),
        TessellateError,
    >)
        ensures
            style.miter_limit < 1 ==> final(self)@ == old(self)@ && r == Err::<(), TessellateError>(
                TessellateError::MiterLimitBelowOne,
            ),
            style.miter_limit >= 1 ==> match first_short(polylines@, polylines@.len()) {
                Some(k) => final(self)@ == old(self)@ && r == Err::<(), TessellateError>(
                    TessellateError::TooFewPoints {
                        polyline: k as usize,
                        points: polylines@[k].points@.len() as usize,
                    },
                ),
                None => {
                    ||| exists|k: usize|
                        {
                            &&& k < polylines@.len()
                            &&& final(self)@ == old(self)@
                            &&& r == Err::<(), TessellateError>(
                                TessellateError::StrokeFailed { polyline: k },
                            )
                        }
                    ||| exists|ms: Seq<MeshView>|
                        {
                            &&& strokes_of(polylines@, style, ms)
                            &&& (final(self)@, r) == upload_outcome(old(self)@, ms)
                        }
                },
            },
            !(r matches Err(TessellateError::MalformedStroke { .. })),
            is_sharp(style) ==> (final(self)@, r) == tessellate_outcome(old(self)@, polylines@, style),
    {
        if style.miter_limit < 1 {
            return Err(TessellateError::MiterLimitBelowOne);
        }
        let ghost pls = polylines@;
        let n = polylines.len();
        let mut k: usize = 0;
        while k < n
            invariant
                pls == polylines@,
                n == pls.len(),
                k <= n,
                style.miter_limit >= 1,
                first_short(pls, k as nat) is None,
            decreases n - k,
        {
            if polylines[k].points.len() < 2 {
                assert(first_short(pls, (k + 1) as nat) == Some(k as int));
                proof {
                    lemma_first_short_stable(pls, (k + 1) as nat, n as nat);
                }
                return Err(
                    TessellateError::TooFewPoints { polyline: k, points: polylines[k].points.len() },
                );
            }
            k += 1;
        }
        let mut meshes: Vec<StrokeMesh> = Vec::new();
        let mut k: usize = 0;
        while k < n
            invariant
                pls == polylines@,
                n == pls.len(),
                k <= n,
                style.miter_limit >= 1,
                first_short(pls, n as nat) is None,
                is_sharp(style) ==> first_failed(pls, style, k as nat) is None,
                meshes@.len() == k,
                forall|j: int|
                    0 <= j < k ==> stroke_fits(pls[j], style, #[trigger] mesh_views(meshes@)[j]),
            decreases n - k,
        {
            let pl = &polylines[k];
            match stroke(&pl.points, pl.thickness, style) {
                Some((positions, indices)) => {
                    let mesh = StrokeMesh::new(positions, indices, pl.color);
                    assert(stroke_fits(pls[k as int], style, mesh@));
                    let ghost before = meshes@;
                    meshes.push(mesh);
                    assert(mesh_views(meshes@) =~= mesh_views(before).push(mesh@));
                },
                None => {
                    proof {
                        if is_sharp(style) {
                            assert(first_failed(pls, style, (k + 1) as nat) == Some(k as int));
                            lemma_first_failed_stable(pls, style, (k + 1) as nat, n as nat);
                        }
                    }
                    return Err(TessellateError::StrokeFailed { polyline: k });
                },
            }
            k += 1;
        }
        let ghost ms = mesh_views(meshes@);
        assert(strokes_of(pls, style, ms));
        proof {
            lemma_strokes_are_valid(pls, style, ms);
            if is_sharp(style) {
                assert(ms =~= polyline_meshes(pls, style));
            }
        }
        self.upload(&meshes)
    }
}

proof fn lemma_valid_meshes(ms: Seq<MeshView>, n: nat)
    requires
        n <= ms.len(),
        forall|k: int| 0 <= k < n ==> mesh_valid(#[trigger] ms[k]),
    ensures
        first_invalid(ms, n) is None,
    decreases n,
{
    if n > 0 {
        lemma_valid_meshes(ms, (n - 1) as nat);
        assert(mesh_valid(ms[n - 1]));
    }
}

/// Strokes of polylines always index their own vertices, so an upload of them
/// succeeds exactly when their combined vertex and index counts fit the buffer.
pub proof fn lemma_strokes_are_valid(pls: Seq<Polyline>, style: StrokeStyle, ms: Seq<MeshView>)
    requires
        strokes_of(pls, style, ms),
    ensures
        first_invalid(ms, ms.len()) is None,
        forall|cur: BufferView|
            (#[trigger] upload_outcome(cur, ms).1 is Ok) <==> (vertex_total(ms, ms.len())
                <= cur.vertex_capacity && index_total(ms, ms.len()) <= cur.index_capacity),
{
    assert forall|k: int| 0 <= k < ms.len() implies mesh_valid(#[trigger] ms[k]) by {
        assert(stroke_fits(pls[k], style, ms[k]));
        assert forall|j: int| 0 <= j < ms[k].indices.len() implies (
        #[trigger] ms[k].indices[j] as int) < ms[k].positions.len() by {
            assert(triangles_within(ms[k].indices, ms[k].positions.len() as int));
        }
    }
    lemma_valid_meshes(ms, ms.len());
}

proof fn lemma_batch_index_at(ms: Seq<MeshView>, n: nat, k: int, j: int)
    requires
        0 <= k < n <= ms.len(),
        0 <= j < ms[k].indices.len(),
    ensures
        batch_indices(ms, n)[index_total(ms, k as nat) + j] == ms[k].indices[j] as int + vertex_total(
            ms,
            k as nat,
        ),
        index_total(ms, k as nat) + j < batch_indices(ms, n).len(),
    decreases n,
{
    lemma_batch_lengths(ms, (n - 1) as nat);
    lemma_batch_lengths(ms, n);
    lemma_batch_lengths(ms, k as nat);
    let m = (n - 1) as nat;
    let a = batch_indices(ms, m);
    let b = shifted_indices(ms[m as int], vertex_total(ms, m));
    assert(batch_indices(ms, n) == a + b);
    if k < m {
        lemma_batch_index_at(ms, m, k, j);
        assert((a + b)[index_total(ms, k as nat) + j] == a[index_total(ms, k as nat) + j]);
    } else {
        assert((a + b)[index_total(ms, k as nat) + j] == b[j]);
    }
}

proof fn lemma_batch_indices_bounded(ms: Seq<MeshView>, n: nat)
    requires
        n <= ms.len(),
        first_invalid(ms, n) is None,
    ensures
        forall|i: int|
            0 <= i < batch_indices(ms, n).len() ==> 0 <= #[trigger] batch_indices(ms, n)[i]
                < vertex_total(ms, n),
    decreases n,
{
    if n > 0 {
        let m = (n - 1) as nat;
        lemma_batch_indices_bounded(ms, m);
        lemma_batch_lengths(ms, m);
        lemma_first_invalid_none(ms, n, m as int);
        assert forall|i: int| 0 <= i < batch_indices(ms, n).len() implies 0
            <= #[trigger] batch_indices(ms, n)[i] < vertex_total(ms, n) by {
            if i >= batch_indices(ms, m).len() {
                let j = i - batch_indices(ms, m).len();
                assert((ms[m as int].indices[j] as int) < ms[m as int].positions.len());
            }
        }
    }
}

/// In a successful upload each mesh's indices come out moved up by the vertices
/// before it, so they name that mesh's own vertices and no other's; and every
/// index names a vertex of the combined mesh.
pub proof fn lemma_batch_index_ranges(cur: BufferView, ms: Seq<MeshView>)
    requires
        upload_outcome(cur, ms).1 is Ok,
    ensures
        forall|k: int, j: int|
            0 <= k < ms.len() && 0 <= j < ms[k].indices.len() ==> {
                let c = upload_outcome(cur, ms).0.indices[index_total(ms, k as nat) + j];
                &&& c == #[trigger] ms[k].indices[j] as int + vertex_total(ms, k as nat)
                &&& vertex_total(ms, k as nat) <= c < vertex_total(ms, (k + 1) as nat)
            },
        forall|i: int|
            0 <= i < upload_outcome(cur, ms).0.indices.len() ==> 0
                <= #[trigger] upload_outcome(cur, ms).0.indices[i] < upload_outcome(
                cur,
                ms,
            ).0.vertices.len(),
{
    let n = ms.len();
    assert(first_invalid(ms, n) is None);
    assert forall|k: int, j: int| 0 <= k < ms.len() && 0 <= j < ms[k].indices.len() implies {
        let c = upload_outcome(cur, ms).0.indices[index_total(ms, k as nat) + j];
        &&& c == #[trigger] ms[k].indices[j] as int + vertex_total(ms, k as nat)
        &&& vertex_total(ms, k as nat) <= c < vertex_total(ms, (k + 1) as nat)
    } by {
        lemma_batch_index_at(ms, n, k, j);
        lemma_first_invalid_none(ms, n, k);
    }
    lemma_batch_indices_bounded(ms, n);
    lemma_batch_lengths(ms, n);
}

/// Re-tessellating replaces the contents whole: whatever strokes an earlier call
/// uploaded, uploading `second` has the outcome it has on the buffer before that
/// call, and a success leaves exactly the vertices and indices of `second`, as
/// many indices as `second` holds and not one more.
pub proof fn lemma_retessellate_replaces(
    cur: BufferView,
    first: Seq<MeshView>,
    second: Seq<MeshView>,
)
    ensures
        ({
            let between = upload_outcome(cur, first).0;
            let (after, r) = upload_outcome(between, second);
            &&& r == upload_outcome(cur, second).1
            &&& r is Ok ==> after == upload_outcome(cur, second).0
            &&& r is Ok ==> after.vertices == batch_vertices(second, second.len())
            &&& r is Ok ==> after.indices == batch_indices(second, second.len())
            &&& r is Ok ==> after.indices.len() == index_total(second, second.len())
        }),
{
    lemma_batch_lengths(second, second.len());
}

/// An upload of valid meshes whose combined vertex or index count exceeds the
/// buffer's capacity fails with the matching capacity error, naming the count
/// required, and leaves the buffer as it was: the next call has the outcome it
/// would have had without the failed one.
pub proof fn lemma_overflow_keeps_contents(cur: BufferView, ms: Seq<MeshView>)
    requires
        first_invalid(ms, ms.len()) is None,
        vertex_total(ms, ms.len()) > cur.vertex_capacity || index_total(ms, ms.len())
            > cur.index_capacity,
    ensures
        upload_outcome(cur, ms).0 == cur,
        vertex_total(ms, ms.len()) > cur.vertex_capacity ==> upload_outcome(cur, ms).1 == Err::<
            (),
            TessellateError,
        >(
            TessellateError::VertexOverflow {
                required: vertex_total(ms, ms.len()) as u128,
                capacity: cur.vertex_capacity,
            },
        ),
        vertex_total(ms, ms.len()) <= cur.vertex_capacity ==> upload_outcome(cur, ms).1 == Err::<
            (),
            TessellateError,
        >(
            TessellateError::IndexOverflow {
                required: index_total(ms, ms.len()) as u128,
                capacity: cur.index_capacity,
            },
        ),
        forall|next: Seq<MeshView>|
            #[trigger] upload_outcome(upload_outcome(cur, ms).0, next) == upload_outcome(cur, next),
{
}

proof fn lemma_batch_vertex_at(ms: Seq<MeshView>, n: nat, k: int, j: int)
    requires
        0 <= k < n <= ms.len(),
        0 <= j < ms[k].positions.len(),
    ensures
        vertex_total(ms, k as nat) + j < batch_vertices(ms, n).len(),
        batch_vertices(ms, n)[vertex_total(ms, k as nat) + j] == (Vertex {
            x: ms[k].positions[j].0,
            y: ms[k].positions[j].1,
            color: ms[k].color,
        }),
    decreases n,
{
    lemma_batch_lengths(ms, k as nat);
    lemma_batch_lengths(ms, (n - 1) as nat);
    lemma_batch_lengths(ms, n);
    let m = (n - 1) as nat;
    let a = batch_vertices(ms, m);
    let b = mesh_vertices(ms[m as int]);
    assert(batch_vertices(ms, n) == a + b);
    if k < m {
        lemma_batch_vertex_at(ms, m, k, j);
        assert((a + b)[vertex_total(ms, k as nat) + j] == a[vertex_total(ms, k as nat) + j]);
    } else {
        assert((a + b)[vertex_total(ms, k as nat) + j] == b[j]);
    }
}

/// In a successful upload each mesh's vertices come out in order, one block
/// after another, every one of them in that mesh's flat color.
pub proof fn lemma_batch_vertex_colors(cur: BufferView, ms: Seq<MeshView>)
    requires
        upload_outcome(cur, ms).1 is Ok,
    ensures
        upload_outcome(cur, ms).0.vertices.len() == vertex_total(ms, ms.len()),
        forall|k: int, j: int|
            0 <= k < ms.len() && 0 <= j < ms[k].positions.len() ==> upload_outcome(
                cur,
                ms,
            ).0.vertices[vertex_total(ms, k as nat) + j] == (Vertex {
                x: (#[trigger] ms[k].positions[j]).0,
                y: ms[k].positions[j].1,
                color: ms[k].color,
            }),
{
    let n = ms.len();
    lemma_batch_lengths(ms, n);
    assert forall|k: int, j: int| 0 <= k < ms.len() && 0 <= j < ms[k].positions.len() implies upload_outcome(
        cur,
        ms,
    ).0.vertices[vertex_total(ms, k as nat) + j] == (Vertex {
        x: (#[trigger] ms[k].positions[j]).0,
        y: ms[k].positions[j].1,
        color: ms[k].color,
    }) by {
        lemma_batch_vertex_at(ms, n, k, j);
    }
}

} // verus!
