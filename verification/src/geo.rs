//! The mesh of a slider body: vertices, and the triangles over them as
//! triples of vertex indices. Where the vertices lie is for the caller to
//! compute; this module keeps the two buffers and numbers the triangles.
use crate::util::{Float, Vec2};
use vstd::prelude::*;

verus! {

/// A corner of the mesh. `is_edge` is one on the rim of the slider body and
/// zero on its centre line.
#[derive(Clone, Copy, Debug, PartialEq, Eq, Structural)]
pub struct SliderVertex {
    pub pos: Vec2,
    pub is_edge: Float,
}

/// The vertex buffer and the index buffer of a mesh.
#[derive(Debug, PartialEq, Eq)]
pub struct SliderGeometry {
    pub vertices: Vec<SliderVertex>,
    pub indices: Vec<usize>,
}

/// The indices of a fan over `count` vertices that begin at `cursor`: one
/// triangle from the first vertex to each pair of neighbours among the rest.
pub open spec fn strip_indices(cursor: int, count: int) -> Seq<usize>
    decreases count,
{
    if count <= 2 {
        Seq::empty()
    } else {
        strip_indices(cursor, count - 1) + seq![
            cursor as usize,
            (cursor + count - 2) as usize,
            (cursor + count - 1) as usize,
        ]
    }
}

/// The indices of the four triangles of a straight segment over six vertices
/// that begin at `cursor`: the first three vertices lie across the start of
/// the segment, the last three across its end, each time left rim, centre,
/// right rim. Two triangles lie on each side of the centre line.
pub open spec fn segment_indices(cursor: int) -> Seq<usize> {
    seq![
        cursor as usize,
        (cursor + 3) as usize,
        (cursor + 1) as usize,
        (cursor + 3) as usize,
        (cursor + 4) as usize,
        (cursor + 1) as usize,
        (cursor + 1) as usize,
        (cursor + 4) as usize,
        (cursor + 5) as usize,
        (cursor + 5) as usize,
        (cursor + 2) as usize,
        (cursor + 1) as usize,
    ]
}

impl SliderGeometry {
    /// An empty mesh with room for a slider of ordinary length.
    pub fn new() -> (geometry: Self)
        ensures
            geometry.vertices@ == Seq::<SliderVertex>::empty(),
            geometry.indices@ == Seq::<usize>::empty(),
    {
        SliderGeometry { vertices: Vec::with_capacity(5000), indices: Vec::with_capacity(5000) }
    }

    /// Adds one vertex behind the others.
    pub fn add_vertex(&mut self, vertex: &SliderVertex)
        ensures
            final(self).vertices@ == old(self).vertices@.push(*vertex),
            final(self).indices@ == old(self).indices@,
    {
        self.vertices.push(*vertex)
    }

    /// Adds `vertices` behind the others, in order.
    pub fn add_vertices(&mut self, vertices: Vec<SliderVertex>)
        ensures
            final(self).vertices@ == old(self).vertices@ + vertices@,
            final(self).indices@ == old(self).indices@,
    {
        let mut vertices = vertices;
        self.vertices.append(&mut vertices);
    }

    /// The index that the next vertex gets.
    pub fn cursor(&self) -> (cursor: usize)
        ensures
            cursor == self.vertices@.len(),
    {
        self.vertices.len()
    }

    /// Adds one index behind the others.
    pub fn add_index(&mut self, index: usize)
        ensures
            final(self).indices@ == old(self).indices@.push(index),
            final(self).vertices@ == old(self).vertices@,
    {
        self.indices.push(index)
    }

    /// Adds `indices` behind the others, in order.
    pub fn add_indices(&mut self, indices: Vec<usize>)
        ensures
            final(self).indices@ == old(self).indices@ + indices@,
            final(self).vertices@ == old(self).vertices@,
    {
        let mut indices = indices;
        self.indices.append(&mut indices);
    }

    /// Adds three vertices and the triangle over them.
    pub fn add_triangle(&mut self, vertices: [SliderVertex; 3])
        ensures
            final(self).vertices@ == old(self).vertices@ + vertices@,
            final(self).indices@ == old(self).indices@ + seq![
                old(self).vertices@.len() as usize,
                (old(self).vertices@.len() + 1) as usize,
                (old(self).vertices@.len() + 2) as usize,
            ],
    {
        let cursor = self.cursor();
        let mut added: Vec<SliderVertex> = Vec::new();
        added.push(vertices[0]);
        added.push(vertices[1]);
        added.push(vertices[2]);
        self.add_vertices(added);
        assert(self.vertices.len() == cursor + 3);
        let mut indices: Vec<usize> = Vec::new();
        indices.push(cursor);
        indices.push(cursor + 1);
        indices.push(cursor + 2);
        self.add_indices(indices);
    }

    /// Adds four vertices and two triangles. The second triangle names the
    /// vertex that follows the four.
    pub fn add_quad(&mut self, vertices: [SliderVertex; 4])
        ensures
            final(self).vertices@ == old(self).vertices@ + vertices@,
            final(self).indices@ == old(self).indices@ + seq![
                old(self).vertices@.len() as usize,
                (old(self).vertices@.len() + 1) as usize,
                (old(self).vertices@.len() + 2) as usize,
                old(self).vertices@.len() as usize,
                (old(self).vertices@.len() + 3) as usize,
                (old(self).vertices@.len() + 4) as usize,
            ],
    {
        let cursor = self.cursor();
        let mut added: Vec<SliderVertex> = Vec::new();
        added.push(vertices[0]);
        added.push(vertices[1]);
        added.push(vertices[2]);
        added.push(vertices[3]);
        self.add_vertices(added);
        assert(self.vertices.len() == cursor + 4);
        let mut indices: Vec<usize> = Vec::new();
        indices.push(cursor);
        indices.push(cursor + 1);
        indices.push(cursor + 2);
        indices.push(cursor);
        indices.push(cursor + 3);
        indices.push(cursor + 4);
        self.add_indices(indices);
    }

    /// Adds the six vertices of a straight segment and the four triangles
    /// over them.
    pub fn add_segment(&mut self, vertices: [SliderVertex; 6])
        ensures
            final(self).vertices@ == old(self).vertices@ + vertices@,
            final(self).indices@ == old(self).indices@ + segment_indices(
                old(self).vertices@.len() as int,
            ),
    {
        let cursor = self.cursor();
        let mut added: Vec<SliderVertex> = Vec::new();
        added.push(vertices[0]);
        added.push(vertices[1]);
        added.push(vertices[2]);
        added.push(vertices[3]);
        added.push(vertices[4]);
        added.push(vertices[5]);
        assert(added@ =~= vertices@);
        self.add_vertices(added);
        assert(self.vertices.len() == cursor + 6);
        let mut indices: Vec<usize> = Vec::new();
        indices.push(cursor);
        indices.push(cursor + 3);
        indices.push(cursor + 1);
        indices.push(cursor + 3);
        indices.push(cursor + 4);
        indices.push(cursor + 1);
        indices.push(cursor + 1);
        indices.push(cursor + 4);
        indices.push(cursor + 5);
        indices.push(cursor + 5);
        indices.push(cursor + 2);
        indices.push(cursor + 1);
        assert(indices@ =~= segment_indices(cursor as int));
        self.add_indices(indices);
    }

    /// Adds `vertices` and a fan of triangles over them: the first vertex
    /// with each pair of neighbours among the rest. At least one vertex is
    /// needed; fewer than three make no triangle.
    pub fn add_triangle_strip(&mut self, vertices: Vec<SliderVertex>)
        requires
            vertices@.len() >= 1,
        ensures
            final(self).vertices@ == old(self).vertices@ + vertices@,
            final(self).indices@ == old(self).indices@ + strip_indices(
                old(self).vertices@.len() as int,
                vertices@.len() as int,
            ),
    {
        let cursor = self.cursor();
        self.add_vertices(vertices);
        let num_pts = self.cursor() - cursor;
        let mut indices: Vec<usize> = Vec::new();
        let mut i: usize = 1;
        while i < num_pts - 1
            invariant
                1 <= i,
                num_pts >= 1,
                i <= num_pts - 1 || (num_pts == 1 && i == 1),
                cursor + num_pts <= usize::MAX,
                indices@ == strip_indices(cursor as int, i + 1),
            decreases num_pts - i,
        {
            indices.push(cursor);
            indices.push(cursor + i);
            indices.push(cursor + i + 1);
            i += 1;
        }
        self.add_indices(indices);
    }
}

} // verus!
