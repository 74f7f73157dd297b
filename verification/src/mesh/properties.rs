//! Properties of the mesh operations that follow from their specifications:
//! triangle counts, index ranges and the midpoints shared between
//! subdivision and second-order conversion.
use crate::mesh::edge_midpoints::{dedup_keys, edge_key, keys_of, lemma_dedup_keys, mid};
use crate::mesh::higher_order::{second_order_indices, spec_second_order};
use crate::mesh::subdivision::{
    corner, linear_edges_in, linear_requests, linear_subdivision_indices,
    spec_subdivided, split_triangle,
};
use crate::mesh::triangulation::{
    cell_triangles, cells_indices, cells_mapping, cells_valid, fan_triangle_count, repeat,
    spec_cell_vertices_valid, spec_fan,
};
use crate::mesh::vtk::CellType;
use crate::mesh::MeshTopology;
use crate::mesh::subdivision::RefinedMesh;
use vstd::prelude::*;

verus! {

/// Subdividing splits every triangle into four: `t` triangles give `12 t`
/// indices.
pub proof fn law_subdivision_quadruples_triangles(idx: Seq<u32>, t: int, edges: Seq<(u32, u32)>, base: int)
    requires
        t >= 0,
    ensures
        linear_subdivision_indices(idx, t, edges, base).len() == 12 * t,
    decreases t,
{
    if t > 0 {
        law_subdivision_quadruples_triangles(idx, t - 1, edges, base);
    }
}

proof fn lemma_requests_cover(idx: Seq<u32>, t: int)
    requires
        t >= 0,
    ensures
        linear_edges_in(idx, t, keys_of(linear_requests(idx, t))),
        keys_of(linear_requests(idx, t)).len() == 3 * t,
    decreases t,
{
    if t > 0 {
        lemma_requests_cover(idx, t - 1);
        let prev = linear_requests(idx, t - 1);
        let (v0, v1, v2) = (corner(idx, t - 1, 0), corner(idx, t - 1, 1), corner(idx, t - 1, 2));
        let now = linear_requests(idx, t);
        let kp = keys_of(prev);
        let kn = keys_of(now);
        assert(kn.len() == kp.len() + 3);
        assert forall|i: int| 0 <= i < kp.len() implies kn[i] == kp[i] by {}
        assert(kn[3 * t - 3] == edge_key(v0, v1));
        assert(kn[3 * t - 2] == edge_key(v1, v2));
        assert(kn[3 * t - 1] == edge_key(v2, v0));
        assert forall|s: int| 0 <= s < t implies {
            &&& kn.contains(edge_key(#[trigger] corner(idx, s, 0), corner(idx, s, 1)))
            &&& kn.contains(edge_key(corner(idx, s, 1), corner(idx, s, 2)))
            &&& kn.contains(edge_key(corner(idx, s, 2), corner(idx, s, 0)))
        } by {
            if s < t - 1 {
                assert(kp.contains(edge_key(corner(idx, s, 0), corner(idx, s, 1))));
                assert(kp.contains(edge_key(corner(idx, s, 1), corner(idx, s, 2))));
                assert(kp.contains(edge_key(corner(idx, s, 2), corner(idx, s, 0))));
                let a = choose|i: int| 0 <= i < kp.len() && kp[i] == edge_key(corner(idx, s, 0), corner(idx, s, 1));
                let b = choose|i: int| 0 <= i < kp.len() && kp[i] == edge_key(corner(idx, s, 1), corner(idx, s, 2));
                let c = choose|i: int| 0 <= i < kp.len() && kp[i] == edge_key(corner(idx, s, 2), corner(idx, s, 0));
                assert(kn[a] == kp[a]);
                assert(kn[b] == kp[b]);
                assert(kn[c] == kp[c]);
            } else {
                assert(kn[3 * t - 3] == edge_key(corner(idx, s, 0), corner(idx, s, 1)));
                assert(kn[3 * t - 2] == edge_key(corner(idx, s, 1), corner(idx, s, 2)));
                assert(kn[3 * t - 1] == edge_key(corner(idx, s, 2), corner(idx, s, 0)));
            }
        }
        assert(linear_edges_in(idx, t, kn));
    }
}

proof fn lemma_mid_in_range(e: Seq<(u32, u32)>, base: int, a: u32, b: u32)
    requires
        e.contains(edge_key(a, b)),
        0 <= base,
        base + e.len() <= u32::MAX + 1,
    ensures
        base <= mid(e, base, a, b) < base + e.len(),
{
    let i = choose|i: int| 0 <= i < e.len() && e[i] == edge_key(a, b);
    assert(0 <= e.index_of(edge_key(a, b)) < e.len());
}

/// Subdivision refers only to existing vertices: with every original index
/// below `n`, every subdivided index is below `n` plus the number of
/// midpoints created.
pub proof fn law_subdivision_indices_in_range(idx: Seq<u32>, n: int)
    requires
        idx.len() % 3 == 0,
        0 <= n,
        n + idx.len() <= u32::MAX,
        forall|j: int| 0 <= j < idx.len() ==> #[trigger] idx[j] < n,
    ensures
        ({
            let t = idx.len() / 3;
            let e = keys_of(dedup_keys(linear_requests(idx, t as int)));
            forall|j: int|
                0 <= j < linear_subdivision_indices(idx, t as int, e, n).len() ==> #[trigger] linear_subdivision_indices(
                    idx,
                    t as int,
                    e,
                    n,
                )[j] < n + e.len()
        }),
{
    let t = (idx.len() / 3) as int;
    let reqs = linear_requests(idx, t);
    let e = keys_of(dedup_keys(reqs));
    lemma_requests_cover(idx, t);
    lemma_dedup_keys(reqs);
    assert(e.len() <= 3 * t);
    assert forall|s: int| 0 <= s < t implies {
        &&& e.contains(edge_key(#[trigger] corner(idx, s, 0), corner(idx, s, 1)))
        &&& e.contains(edge_key(corner(idx, s, 1), corner(idx, s, 2)))
        &&& e.contains(edge_key(corner(idx, s, 2), corner(idx, s, 0)))
    } by {
        assert(keys_of(reqs).contains(edge_key(corner(idx, s, 0), corner(idx, s, 1))));
        assert(keys_of(reqs).contains(edge_key(corner(idx, s, 1), corner(idx, s, 2))));
        assert(keys_of(reqs).contains(edge_key(corner(idx, s, 2), corner(idx, s, 0))));
    }
    lemma_subdivision_bound(idx, t, e, n);
}

proof fn lemma_subdivision_bound(idx: Seq<u32>, t: int, e: Seq<(u32, u32)>, n: int)
    requires
        0 <= t <= idx.len() / 3,
        0 <= n,
        n + e.len() <= u32::MAX + 1,
        linear_edges_in(idx, t, e),
        forall|j: int| 0 <= j < idx.len() ==> #[trigger] idx[j] < n,
    ensures
        forall|j: int|
            0 <= j < linear_subdivision_indices(idx, t, e, n).len() ==> #[trigger] linear_subdivision_indices(
                idx,
                t,
                e,
                n,
            )[j] < n + e.len(),
    decreases t,
{
    if t > 0 {
        assert(linear_edges_in(idx, t - 1, e));
        lemma_subdivision_bound(idx, t - 1, e, n);
        let (v0, v1, v2) = (corner(idx, t - 1, 0), corner(idx, t - 1, 1), corner(idx, t - 1, 2));
        assert(v0 < n && v1 < n && v2 < n) by {
            assert(idx[3 * (t - 1)] < n);
            assert(idx[3 * (t - 1) + 1] < n);
            assert(idx[3 * (t - 1) + 2] < n);
        }
        lemma_mid_in_range(e, n, v0, v1);
        lemma_mid_in_range(e, n, v1, v2);
        lemma_mid_in_range(e, n, v2, v0);
        let before = linear_subdivision_indices(idx, t - 1, e, n);
        let last = split_triangle(v0, v1, v2, mid(e, n, v0, v1), mid(e, n, v1, v2), mid(e, n, v2, v0));
        let all = linear_subdivision_indices(idx, t, e, n);
        assert(all == before + last);
        assert forall|j: int| 0 <= j < all.len() implies #[trigger] all[j] < n + e.len() by {
            if j < before.len() {
                assert(all[j] == before[j]);
            } else {
                assert(all[j] == last[j - before.len()]);
            }
        }
    }
}

/// Second-order conversion keeps every triangle's corners: quadratic
/// triangle `s` starts with the three corners of triangle `s`, and `t`
/// triangles give `6 t` indices.
pub proof fn law_second_order_keeps_corners(idx: Seq<u32>, t: int, edges: Seq<(u32, u32)>, base: int)
    requires
        t >= 0,
    ensures
        second_order_indices(idx, t, edges, base).len() == 6 * t,
        forall|s: int, c: int|
            0 <= s < t && 0 <= c < 3 ==> #[trigger] second_order_indices(idx, t, edges, base)[6 * s + c] == corner(
                idx,
                s,
                c,
            ),
    decreases t,
{
    if t > 0 {
        law_second_order_keeps_corners(idx, t - 1, edges, base);
        let before = second_order_indices(idx, t - 1, edges, base);
        let all = second_order_indices(idx, t, edges, base);
        assert forall|s: int, c: int| 0 <= s < t && 0 <= c < 3 implies #[trigger] all[6 * s + c] == corner(idx, s, c) by {
            if s < t - 1 {
                assert(all[6 * s + c] == before[6 * s + c]);
            }
        }
    }
}

/// Subdividing a plain triangle mesh and converting it to second order
/// create the same midpoint vertices: the same edge table, the same vertex
/// sources and the same vertex count.
pub proof fn law_subdivision_and_second_order_share_midpoints(topo: MeshTopology, sub: RefinedMesh, quad: RefinedMesh)
    requires
        topo.quadratic_triangles is None,
        topo.quadratic_edges is None,
        spec_subdivided(topo, sub),
        spec_second_order(topo, quad),
    ensures
        sub.midpoint_edges@ == quad.midpoint_edges@,
        sub.new_vertices@ == quad.new_vertices@,
        sub.midpoint_base == quad.midpoint_base,
        sub.topology.num_vertices == quad.topology.num_vertices,
{
}

/// Every midpoint edge of a subdivision is listed once: neighbouring
/// triangles share the midpoint of their common edge.
pub proof fn law_subdivision_midpoints_distinct(topo: MeshTopology, sub: RefinedMesh)
    requires
        topo.quadratic_triangles is None,
        topo.quadratic_edges is None,
        spec_subdivided(topo, sub),
    ensures
        sub.midpoint_edges@.no_duplicates(),
        sub.midpoint_edges@.len() == sub.new_vertices@.len(),
{
    lemma_dedup_keys(linear_requests(topo.indices@, (topo.indices@.len() / 3) as int));
}

proof fn lemma_cell_triangles_len(cell_type: CellType, v: Seq<u32>)
    requires
        spec_cell_vertices_valid(cell_type, v.len() as int),
    ensures
        cell_triangles(cell_type, v).len() % 3 == 0,
{
    match cell_type {
        CellType::Other(_) => {
            assert(spec_fan(v).len() == 3 * fan_triangle_count(v.len() as int));
        },
        _ => {},
    }
}

/// Every rendering triangle of a cell list belongs to exactly one cell: the
/// triangle list has three indices per mapping entry and every entry names
/// an existing cell.
pub proof fn law_one_cell_per_triangle(cd: Seq<(CellType, Seq<u32>)>)
    requires
        cells_valid(cd),
    ensures
        cells_indices(cd).len() == 3 * cells_mapping(cd).len(),
        forall|k: int| 0 <= k < cells_mapping(cd).len() ==> #[trigger] cells_mapping(cd)[k] < cd.len(),
    decreases cd.len(),
{
    if cd.len() > 0 {
        let prefix = cd.drop_last();
        assert(cells_valid(prefix)) by {
            assert forall|i: int| 0 <= i < prefix.len() implies spec_cell_vertices_valid(prefix[i].0, prefix[i].1.len() as int) by {
                assert(prefix[i] == cd[i]);
            }
        }
        law_one_cell_per_triangle(prefix);
        let last = cd.last();
        assert(spec_cell_vertices_valid(last.0, last.1.len() as int));
        lemma_cell_triangles_len(last.0, last.1);
        let m = cells_mapping(cd);
        let mp = cells_mapping(prefix);
        let r = repeat((cd.len() - 1) as usize, (cell_triangles(last.0, last.1).len() / 3) as int);
        assert(m == mp + r);
        assert forall|k: int| 0 <= k < m.len() implies #[trigger] m[k] < cd.len() by {
            if k < mp.len() {
                assert(m[k] == mp[k]);
            } else {
                assert(m[k] == r[k - mp.len()]);
            }
        }
    }
}

} // verus!
