//! Conversion of linear triangle meshes into second-order (quadratic) ones.
//!
//! Each linear triangle `(v0, v1, v2)` becomes the quadratic triangle
//! `[v0, v1, v2, m01, m12, m20]` in VTK order, where the edge midpoints are
//! new vertices shared between the triangles of an edge.
use crate::mesh::edge_midpoints::{dedup_keys, edge_key, keys_of, mid, payloads_of, EdgeMidpoints};
use crate::mesh::subdivision::{
    corner, lemma_mid_extend, linear_edges_in, linear_request, linear_requests, request_three,
    table_prefix, RefinedMesh, VertexSource,
};
use crate::mesh::{MeshTopology, VtkError};
use vstd::prelude::*;

verus! {

/// Quadratic index lists of triangles `0..t`: `[v0, v1, v2, m01, m12, m20]`
/// each, with midpoints from the table `edges` starting at vertex `base`.
pub open spec fn second_order_indices(idx: Seq<u32>, t: int, edges: Seq<(u32, u32)>, base: int) -> Seq<
    u32,
>
    decreases t,
{
    if t <= 0 {
        seq![]
    } else {
        let (v0, v1, v2) = (corner(idx, t - 1, 0), corner(idx, t - 1, 1), corner(idx, t - 1, 2));
        second_order_indices(idx, t - 1, edges, base) + seq![
            v0,
            v1,
            v2,
            mid(edges, base, v0, v1),
            mid(edges, base, v1, v2),
            mid(edges, base, v2, v0),
        ]
    }
}

proof fn lemma_second_order_stable(
    idx: Seq<u32>,
    t: int,
    e1: Seq<(u32, u32)>,
    e2: Seq<(u32, u32)>,
    base: int,
)
    requires
        table_prefix(e1, e2),
        linear_edges_in(idx, t, e1),
    ensures
        second_order_indices(idx, t, e1, base) == second_order_indices(idx, t, e2, base),
    decreases t,
{
    if t > 0 {
        lemma_second_order_stable(idx, t - 1, e1, e2, base);
        let (v0, v1, v2) = (corner(idx, t - 1, 0), corner(idx, t - 1, 1), corner(idx, t - 1, 2));
        assert(e1.contains(edge_key(v0, v1)));
        lemma_mid_extend(e1, e2, base, v0, v1);
        lemma_mid_extend(e1, e2, base, v1, v2);
        lemma_mid_extend(e1, e2, base, v2, v0);
    }
}

/// Turns each linear triangle into a quadratic one, creating one midpoint
/// vertex per edge (as `base, base + 1, ...` in the order the edges are first
/// met).
fn convert_linear_triangles_to_quadratic_with_mapping(indices: &Vec<u32>, base: u32) -> (res: (
    Vec<u32>,
    EdgeMidpoints,
    Vec<VertexSource>,
))
    requires
        base + indices@.len() <= u32::MAX,
    ensures
        ({
            let t = (indices@.len() / 3) as int;
            &&& res.1.wf()
            &&& res.1.base() == base
            &&& res.1.edges().len() <= indices@.len()
            &&& res.1.edges() == keys_of(dedup_keys(linear_requests(indices@, t)))
            &&& res.2@ == payloads_of(dedup_keys(linear_requests(indices@, t)))
            &&& res.0@ == second_order_indices(indices@, t, res.1.edges(), base as int)
        }),
{
    let num_triangles = indices.len() / 3;
    let mut new_indices: Vec<u32> = Vec::new();
    let mut table = EdgeMidpoints::new(base);
    let mut sources: Vec<VertexSource> = Vec::new();
    let mut triangle_idx: usize = 0;
    while triangle_idx < num_triangles
        invariant
            num_triangles == indices@.len() / 3,
            triangle_idx <= num_triangles,
            base + indices@.len() <= u32::MAX,
            table.wf(),
            table.base() == base,
            table.edges().len() <= 3 * triangle_idx,
            table.edges() == keys_of(dedup_keys(linear_requests(indices@, triangle_idx as int))),
            sources@ == payloads_of(dedup_keys(linear_requests(indices@, triangle_idx as int))),
            linear_edges_in(indices@, triangle_idx as int, table.edges()),
            new_indices@ == second_order_indices(
                indices@,
                triangle_idx as int,
                table.edges(),
                base as int,
            ),
        decreases num_triangles - triangle_idx,
    {
        let base_idx = triangle_idx * 3;
        let v0 = indices[base_idx];
        let v1 = indices[base_idx + 1];
        let v2 = indices[base_idx + 2];
        let ghost e0 = table.edges();
        let (mid01, mid12, mid20) = request_three(
            &mut table,
            &mut sources,
            v0,
            v1,
            VertexSource::EdgeMidpoint(if v0 < v1 { v0 } else { v1 }, if v0 < v1 { v1 } else { v0 }),
            v1,
            v2,
            VertexSource::EdgeMidpoint(if v1 < v2 { v1 } else { v2 }, if v1 < v2 { v2 } else { v1 }),
            v2,
            v0,
            VertexSource::EdgeMidpoint(if v2 < v0 { v2 } else { v0 }, if v2 < v0 { v0 } else { v2 }),
            Ghost(linear_requests(indices@, triangle_idx as int)),
        );
        proof {
            assert(linear_requests(indices@, triangle_idx + 1) =~= linear_requests(
                indices@,
                triangle_idx as int,
            ) + seq![linear_request(v0, v1), linear_request(v1, v2), linear_request(v2, v0)]);
            assert(corner(indices@, triangle_idx as int, 0) == v0);
            assert(corner(indices@, triangle_idx as int, 1) == v1);
            assert(corner(indices@, triangle_idx as int, 2) == v2);
            lemma_second_order_stable(indices@, triangle_idx as int, e0, table.edges(), base as int);
            let e3 = table.edges();
            assert forall|s: int| 0 <= s < triangle_idx + 1 implies {
                &&& e3.contains(edge_key(#[trigger] corner(indices@, s, 0), corner(indices@, s, 1)))
                &&& e3.contains(edge_key(corner(indices@, s, 1), corner(indices@, s, 2)))
                &&& e3.contains(edge_key(corner(indices@, s, 2), corner(indices@, s, 0)))
            } by {
                if s < triangle_idx {
                    assert(linear_edges_in(indices@, triangle_idx as int, e0));
                    lemma_mid_extend(e0, e3, base as int, corner(indices@, s, 0), corner(indices@, s, 1));
                    lemma_mid_extend(e0, e3, base as int, corner(indices@, s, 1), corner(indices@, s, 2));
                    lemma_mid_extend(e0, e3, base as int, corner(indices@, s, 2), corner(indices@, s, 0));
                }
            }
        }
        let ghost before = new_indices@;
        new_indices.push(v0);
        new_indices.push(v1);
        new_indices.push(v2);
        new_indices.push(mid01);
        new_indices.push(mid12);
        new_indices.push(mid20);
        proof {
            assert(new_indices@ =~= second_order_indices(
                indices@,
                triangle_idx + 1,
                table.edges(),
                base as int,
            ));
        }
        triangle_idx = triangle_idx + 1;
    }
    (new_indices, table, sources)
}

/// Triangle `t` of the original mesh, repeated four times: a quadratic
/// triangle renders as four linear ones.
pub fn generate_higher_order_triangle_mapping(num_original_triangles: usize) -> (mapping: Vec<
    usize,
>)
    ensures
        mapping@ == Seq::new(4 * num_original_triangles as nat, |k: int| (k / 4) as usize),
{
    let mut mapping: Vec<usize> = Vec::new();
    let mut cell_idx: usize = 0;
    while cell_idx < num_original_triangles
        invariant
            cell_idx <= num_original_triangles,
            mapping@ =~= Seq::new(4 * num_original_triangles as nat, |k: int| (k / 4) as usize).subrange(0, 4 * cell_idx),
        decreases num_original_triangles - cell_idx,
    {
        mapping.push(cell_idx);
        mapping.push(cell_idx);
        mapping.push(cell_idx);
        mapping.push(cell_idx);
        cell_idx = cell_idx + 1;
    }
    mapping
}

/// What converting `topo` to second order gives: one quadratic index list
/// per triangle, one new midpoint vertex per distinct edge, and each
/// triangle's index repeated four times as its cell mapping. No quadratic
/// elements are attached.
pub open spec fn spec_second_order(topo: MeshTopology, r: RefinedMesh) -> bool {
    let n = topo.num_vertices as int;
    let idx = topo.indices@;
    let t = (idx.len() / 3) as int;
    let e = r.midpoint_edges@;
    let reqs = linear_requests(idx, t);
    &&& r.midpoint_base == n
    &&& e == keys_of(dedup_keys(reqs))
    &&& r.new_vertices@ == payloads_of(dedup_keys(reqs))
    &&& r.topology.num_vertices == n + e.len()
    &&& r.topology.indices@ == second_order_indices(idx, t, e, n)
    &&& r.topology.triangle_to_cell_mapping matches Some(m) && m@ == Seq::new(
        4 * t as nat,
        |k: int| (k / 4) as usize,
    )
    &&& r.topology.quadratic_triangles is None
    &&& r.topology.quadratic_edges is None
}

/// Converts a linear triangle mesh to a second-order one.
///
/// Fails with `InvalidFormat("Mesh must be triangular")` exactly when the
/// index count is not a multiple of three.
pub fn convert_to_second_order(topology: &MeshTopology) -> (res: Result<RefinedMesh, VtkError>)
    requires
        topology.num_vertices + topology.indices@.len() <= u32::MAX,
    ensures
        match res {
            Ok(r) => topology.indices@.len() % 3 == 0 && spec_second_order(*topology, r),
            Err(e) => topology.indices@.len() % 3 != 0 && e == VtkError::InvalidFormat(
                "Mesh must be triangular",
            ),
        },
{
    if topology.indices.len() % 3 != 0 {
        return Err(VtkError::InvalidFormat("Mesh must be triangular"));
    }
    let num_triangles = topology.indices.len() / 3;
    let n = topology.num_vertices as u32;
    let (new_indices, table, new_vertices) = convert_linear_triangles_to_quadratic_with_mapping(
        &topology.indices,
        n,
    );
    let midpoint_edges = table.into_edges();
    let mapping = generate_higher_order_triangle_mapping(num_triangles);
    let mut new_topology = MeshTopology::new(topology.num_vertices + midpoint_edges.len(), new_indices);
    new_topology.triangle_to_cell_mapping = Some(mapping);
    Ok(RefinedMesh { topology: new_topology, new_vertices, midpoint_base: n, midpoint_edges })
}

/// Converts a linear mesh to a mesh of the given order.
///
/// Order 2 is [`convert_to_second_order`]; an order below 2 fails with
/// `InvalidFormat("Order must be >= 2")` and a higher one with
/// `UnsupportedDataType`.
pub fn convert_to_higher_order(topology: &MeshTopology, order: u32) -> (res: Result<
    RefinedMesh,
    VtkError,
>)
    requires
        topology.num_vertices + topology.indices@.len() <= u32::MAX,
    ensures
        order < 2 ==> res == Err::<RefinedMesh, VtkError>(VtkError::InvalidFormat("Order must be >= 2")),
        order > 2 ==> res == Err::<RefinedMesh, VtkError>(VtkError::UnsupportedDataType),
        order == 2 ==> match res {
            Ok(r) => topology.indices@.len() % 3 == 0 && spec_second_order(*topology, r),
            Err(e) => topology.indices@.len() % 3 != 0 && e == VtkError::InvalidFormat(
                "Mesh must be triangular",
            ),
        },
{
    if order < 2 {
        return Err(VtkError::InvalidFormat("Order must be >= 2"));
    }
    if order == 2 {
        convert_to_second_order(topology)
    } else {
        Err(VtkError::UnsupportedDataType)
    }
}

} // verus!
