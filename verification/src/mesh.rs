//! Core mesh topology types.
pub mod cell_colors;
pub mod edge_midpoints;
pub mod error;
pub mod higher_order;
pub mod properties;
pub mod subdivision;
pub mod triangulation;
pub mod vtk;
pub mod wave;

pub use self::error::VtkError;
pub use self::vtk::AttributeLocation;
use vstd::prelude::*;

verus! {

/// Quadratic edge: two endpoints and the edge midpoint.
///
/// `vertices[0]` is the r=0 endpoint, `vertices[1]` the r=1 endpoint and
/// `vertices[2]` the r=0.5 midpoint.
#[derive(Debug, Clone, Copy, PartialEq, Eq)]
pub struct QuadraticEdge {
    pub vertices: [u32; 3],
}

/// Quadratic triangle: three corners followed by the three edge midpoints.
///
/// Layout: `[v0, v1, v2, m01, m12, m20]`.
#[derive(Debug, Clone, Copy, PartialEq, Eq)]
pub struct QuadraticTriangle {
    pub vertices: [u32; 6],
}

impl QuadraticEdge {
    /// Creates a quadratic edge from its three control point indices.
    pub fn new(vertices: [u32; 3]) -> (edge: Self)
        ensures
            edge.vertices == vertices,
    {
        Self { vertices }
    }

    /// The two endpoint indices.
    pub fn endpoints(&self) -> (ends: [u32; 2])
        ensures
            ends@ == seq![self.vertices[0], self.vertices[1]],
    {
        [self.vertices[0], self.vertices[1]]
    }

    /// The midpoint index.
    pub fn midpoint(&self) -> (mid: u32)
        ensures
            mid == self.vertices[2],
    {
        self.vertices[2]
    }

    /// Splits the edge into its two linear segments: `p0 -> p2` and `p2 -> p1`.
    pub fn to_linear_segments(&self) -> (segments: [[u32; 2]; 2])
        ensures
            segments[0]@ == seq![self.vertices[0], self.vertices[2]],
            segments[1]@ == seq![self.vertices[2], self.vertices[1]],
    {
        [[self.vertices[0], self.vertices[2]], [self.vertices[2], self.vertices[1]]]
    }
}

impl QuadraticTriangle {
    /// Creates a quadratic triangle from its six control point indices.
    pub fn new(vertices: [u32; 6]) -> (tri: Self)
        ensures
            tri.vertices == vertices,
    {
        Self { vertices }
    }

    /// The three corner indices.
    pub fn corner_vertices(&self) -> (corners: [u32; 3])
        ensures
            corners@ == self.vertices@.subrange(0, 3),
    {
        [self.vertices[0], self.vertices[1], self.vertices[2]]
    }

    /// The three edge midpoint indices `[m01, m12, m20]`.
    pub fn edge_midpoints(&self) -> (mids: [u32; 3])
        ensures
            mids@ == self.vertices@.subrange(3, 6),
    {
        [self.vertices[3], self.vertices[4], self.vertices[5]]
    }

    /// All six control point indices.
    pub fn all_vertices(&self) -> (all: [u32; 6])
        ensures
            all == self.vertices,
    {
        self.vertices
    }

    /// The linear triangle made of the corners only.
    pub fn to_linear_triangle(&self) -> (tri: [u32; 3])
        ensures
            tri@ == self.vertices@.subrange(0, 3),
    {
        self.corner_vertices()
    }
}

/// The index structure of a triangle mesh: how many vertices it has, the
/// triangle index list, the triangle-to-cell mapping and the quadratic
/// elements kept for subdivision. Vertex positions and attribute values are
/// held beside it by the caller.
#[derive(Debug, Clone)]
pub struct MeshTopology {
    /// Number of vertices.
    pub num_vertices: usize,
    /// Triangle indices, three per triangle.
    pub indices: Vec<u32>,
    /// For each triangle, the cell it was produced from.
    pub triangle_to_cell_mapping: Option<Vec<usize>>,
    /// Quadratic triangles kept for subdivision.
    pub quadratic_triangles: Option<Vec<QuadraticTriangle>>,
    /// Quadratic edges kept for subdivision.
    pub quadratic_edges: Option<Vec<QuadraticEdge>>,
}

impl MeshTopology {
    /// Creates a topology with no mapping and no quadratic elements.
    pub fn new(num_vertices: usize, indices: Vec<u32>) -> (topo: Self)
        ensures
            topo.num_vertices == num_vertices,
            topo.indices == indices,
            topo.triangle_to_cell_mapping is None,
            topo.quadratic_triangles is None,
            topo.quadratic_edges is None,
    {
        MeshTopology {
            num_vertices,
            indices,
            triangle_to_cell_mapping: None,
            quadratic_triangles: None,
            quadratic_edges: None,
        }
    }

    /// Sets the quadratic triangles.
    pub fn add_quadratic_triangles(self, quadratic_triangles: Vec<QuadraticTriangle>) -> (topo:
        Self)
        ensures
            topo == (MeshTopology { quadratic_triangles: Some(quadratic_triangles), ..self }),
    {
        let mut s = self;
        s.quadratic_triangles = Some(quadratic_triangles);
        s
    }

    /// Sets the quadratic edges.
    pub fn add_quadratic_edges(self, quadratic_edges: Vec<QuadraticEdge>) -> (topo: Self)
        ensures
            topo == (MeshTopology { quadratic_edges: Some(quadratic_edges), ..self }),
    {
        let mut s = self;
        s.quadratic_edges = Some(quadratic_edges);
        s
    }

    /// Sets the triangle-to-cell mapping.
    pub fn add_triangle_to_cell_mapping(self, mapping: Vec<usize>) -> (topo: Self)
        ensures
            topo == (MeshTopology { triangle_to_cell_mapping: Some(mapping), ..self }),
    {
        let mut s = self;
        s.triangle_to_cell_mapping = Some(mapping);
        s
    }
}

} // verus!
