//! Connectivity of the quadric-error-metric simplifier: triangles, the edges
//! between them, which edges meet at each vertex, edge collapse and the
//! compaction of what survives into a fresh index buffer.
//!
//! Positions, quadrics and collapse costs are floating-point data kept by
//! the caller beside this structure, indexed the same way.
use crate::mesh::edge_midpoints::{
    dedup_keys,
    keys_of,
    lemma_dedup_keys,
    lemma_dedup_keys_push,
};
use std::collections::HashMap;
use vstd::prelude::*;

verus! {

broadcast use vstd::std_specs::hash::group_hash_axioms;

/// A triangle of the simplification mesh.
#[derive(Debug, Clone, Copy, PartialEq, Eq)]
pub struct QemTriangle {
    /// Corner vertex indices.
    pub vertices: [usize; 3],
    /// Removed by a collapse.
    pub is_deleted: bool,
}

/// An edge of the simplification mesh.
#[derive(Debug, Clone, Copy, PartialEq, Eq, Structural)]
pub struct QemEdge {
    /// First endpoint (the smaller index when the edge is built).
    pub v0: usize,
    /// Second endpoint.
    pub v1: usize,
    /// Removed by a collapse or degenerate.
    pub is_deleted: bool,
}

/// Undirected edge key, smaller index first.
pub open spec fn ekey(a: usize, b: usize) -> (usize, usize) {
    if a <= b {
        (a, b)
    } else {
        (b, a)
    }
}

/// The three edge keys of a triangle: `v0-v1`, `v1-v2`, `v2-v0`.
pub open spec fn triangle_edge_keys(t: [usize; 3]) -> Seq<(usize, usize)> {
    seq![ekey(t[0], t[1]), ekey(t[1], t[2]), ekey(t[2], t[0])]
}

/// Every edge of the first `n` triangles, paired with its triangle's index,
/// triangle by triangle and in each triangle in the order above.
pub open spec fn edge_occurrences(tris: Seq<QemTriangle>, n: nat) -> Seq<((usize, usize), usize)>
    decreases n,
{
    if n == 0 {
        Seq::empty()
    } else {
        let t = n - 1;
        let ks = triangle_edge_keys(tris[t].vertices);
        edge_occurrences(tris, (n - 1) as nat) + seq![(ks[0], t as usize), (ks[1], t as usize), (ks[2], t as usize)]
    }
}

/// Indices of the triangles that have edge `k`, once per occurrence, in
/// order.
pub open spec fn triangles_with(occ: Seq<((usize, usize), usize)>, k: (usize, usize)) -> Seq<usize>
    decreases occ.len(),
{
    if occ.len() == 0 {
        Seq::empty()
    } else {
        let before = triangles_with(occ.drop_last(), k);
        if occ.last().0 == k {
            before.push(occ.last().1)
        } else {
            before
        }
    }
}

/// Endpoint pairs of a list of edges.
pub open spec fn edge_keys_of(edges: Seq<QemEdge>) -> Seq<(usize, usize)> {
    edges.map_values(|e: QemEdge| (e.v0, e.v1))
}

/// Hash key of an edge key.
pub open spec fn edge_code(k: (usize, usize)) -> u128 {
    (k.0 * 0x1_0000_0000_0000_0000 + k.1) as u128
}

proof fn lemma_edge_code_injective(k1: (usize, usize), k2: (usize, usize))
    ensures
        edge_code(k1) == edge_code(k2) ==> k1 == k2,
        edge_code(k1) == k1.0 * 0x1_0000_0000_0000_0000 + k1.1,
{
    let (a, b) = k1;
    let (c, d) = k2;
    assert(0 <= a * 0x1_0000_0000_0000_0000 + b < 0x1_0000_0000_0000_0000_0000_0000_0000_0000) by (nonlinear_arith)
        requires
            0 <= a < 0x1_0000_0000_0000_0000,
            0 <= b < 0x1_0000_0000_0000_0000,
    ;
    assert(0 <= c * 0x1_0000_0000_0000_0000 + d < 0x1_0000_0000_0000_0000_0000_0000_0000_0000) by (nonlinear_arith)
        requires
            0 <= c < 0x1_0000_0000_0000_0000,
            0 <= d < 0x1_0000_0000_0000_0000,
    ;
    if a * 0x1_0000_0000_0000_0000 + b == c * 0x1_0000_0000_0000_0000 + d {
        assert(a == c && b == d) by (nonlinear_arith)
            requires
                a * 0x1_0000_0000_0000_0000 + b == c * 0x1_0000_0000_0000_0000 + d,
                0 <= b < 0x1_0000_0000_0000_0000,
                0 <= d < 0x1_0000_0000_0000_0000,
                0 <= a,
                0 <= c,
        ;
    }
}

proof fn lemma_triangles_with_absent(occ: Seq<((usize, usize), usize)>, k: (usize, usize))
    requires
        !keys_of(occ).contains(k),
    ensures
        triangles_with(occ, k) == Seq::<usize>::empty(),
    decreases occ.len(),
{
    if occ.len() > 0 {
        assert(keys_of(occ)[occ.len() - 1] == occ.last().0);
        assert forall|i: int| 0 <= i < occ.drop_last().len() implies keys_of(occ.drop_last())[i]
            != k by {
            assert(keys_of(occ)[i] == keys_of(occ.drop_last())[i]);
        }
        lemma_triangles_with_absent(occ.drop_last(), k);
    }
}

/// The edge table being built: one edge per distinct key of `occ`, in order
/// of first occurrence, with its triangles, and the hash index over keys.
spec fn edge_table_inv(
    map: Map<u128, usize>,
    edges: Seq<QemEdge>,
    edge_tris: Seq<Vec<usize>>,
    occ: Seq<((usize, usize), usize)>,
) -> bool {
    &&& edge_keys_of(edges) == keys_of(dedup_keys(occ))
    &&& edge_tris.len() == edges.len()
    &&& forall|i: int|
        0 <= i < edges.len() ==> (#[trigger] edge_tris[i])@ == triangles_with(occ, edge_keys_of(edges)[i])
    &&& forall|i: int| 0 <= i < edges.len() ==> !(#[trigger] edges[i]).is_deleted
    &&& forall|c: u128| #[trigger]
        map.contains_key(c) <==> exists|i: int| 0 <= i < edges.len() && edge_code(edge_keys_of(edges)[i]) == c
    &&& forall|i: int| 0 <= i < edges.len() ==> map[#[trigger] edge_code(edge_keys_of(edges)[i])] == i
}

/// Adds one occurrence `(ekey(a, b), t)` to the edge table.
fn record_edge(
    map: &mut HashMap<u128, usize>,
    edges: &mut Vec<QemEdge>,
    edge_tris: &mut Vec<Vec<usize>>,
    a: usize,
    b: usize,
    t: usize,
    Ghost(occ): Ghost<Seq<((usize, usize), usize)>>,
)
    requires
        edge_table_inv(old(map)@, old(edges)@, old(edge_tris)@, occ),
    ensures
        edge_table_inv(final(map)@, final(edges)@, final(edge_tris)@, occ.push((ekey(a, b), t))),
{
    let ghost k = ekey(a, b);
    let ghost occ2 = occ.push((k, t));
    proof {
        lemma_dedup_keys(occ);
        lemma_dedup_keys_push(occ, (k, t));
        assert(occ2.drop_last() =~= occ);
    }
    let (lo, hi) = if a <= b {
        (a, b)
    } else {
        (b, a)
    };
    let code: u128 = (lo as u128) * 0x1_0000_0000_0000_0000u128 + (hi as u128);
    proof {
        lemma_edge_code_injective(k, k);
    }
    assert(code == edge_code(k));
    let ghost keys = edge_keys_of(edges@);
    match map.get(&code) {
        Some(idx) => {
            let i = *idx;
            let ghost j = choose|j: int| 0 <= j < edges@.len() && edge_code(keys[j]) == code;
            proof {
                lemma_edge_code_injective(keys[j], k);
            }
            assert(i == j);
            assert(keys[i as int] == k);
            assert(keys_of(dedup_keys(occ)).contains(k));
            assert(dedup_keys(occ2) == dedup_keys(occ));
            let mut list = edge_tris[i].clone();
            assert(list@ =~= edge_tris@[i as int]@);
            list.push(t);
            edge_tris.set(i, list);
            proof {
                assert forall|m: int| 0 <= m < edges@.len() implies (#[trigger] edge_tris@[m])@
                    == triangles_with(occ2, edge_keys_of(edges@)[m]) by {
                    if m != i {
                        assert(keys_of(dedup_keys(occ)).no_duplicates());
                        assert(keys[m] != keys[i as int]);
                    }
                }
            }
        },
        None => {
            assert(!keys.contains(k)) by {
                if keys.contains(k) {
                    let m = choose|m: int| 0 <= m < keys.len() && keys[m] == k;
                    assert(edge_code(keys[m]) == code);
                }
            }
            assert(!keys_of(occ).contains(k));
            proof {
                lemma_triangles_with_absent(occ, k);
            }
            let ghost old_edges = edges@;
            let ghost old_tris = edge_tris@;
            let n = edges.len();
            map.insert(code, n);
            edges.push(QemEdge { v0: lo, v1: hi, is_deleted: false });
            let mut list: Vec<usize> = Vec::new();
            list.push(t);
            edge_tris.push(list);
            proof {
                let keys2 = edge_keys_of(edges@);
                assert(keys2 =~= keys.push(k));
                assert(dedup_keys(occ2) == dedup_keys(occ).push((k, t)));
                assert(keys_of(dedup_keys(occ).push((k, t))) =~= keys_of(dedup_keys(occ)).push(k));
                assert forall|m: int| 0 <= m < edges@.len() implies (#[trigger] edge_tris@[m])@
                    == triangles_with(occ2, keys2[m]) by {
                    if m < n {
                        assert(keys2[m] == keys[m]);
                        assert(keys.contains(keys[m]));
                        assert(edge_tris@[m] == old_tris[m]);
                    } else {
                        assert(list@ =~= Seq::<usize>::empty().push(t));
                    }
                }
                assert forall|m: int| 0 <= m < edges@.len() implies !(#[trigger] edges@[m]).is_deleted by {
                    if m < n {
                        assert(edges@[m] == old_edges[m]);
                    }
                }
                assert forall|c: u128| #[trigger]
                    map@.contains_key(c) <==> exists|m: int|
                        0 <= m < edges@.len() && edge_code(keys2[m]) == c by {
                    if map@.contains_key(c) && c != code {
                        let m = choose|m: int| 0 <= m < old_edges.len() && edge_code(keys[m]) == c;
                        assert(keys2[m] == keys[m]);
                    }
                    if c == code {
                        assert(edge_code(keys2[n as int]) == c);
                    }
                    if exists|m: int| 0 <= m < edges@.len() && edge_code(keys2[m]) == c {
                        let m = choose|m: int| 0 <= m < edges@.len() && edge_code(keys2[m]) == c;
                        if m < n {
                            assert(keys2[m] == keys[m]);
                        }
                    }
                }
                assert forall|m: int| 0 <= m < edges@.len() implies map@[#[trigger] edge_code(keys2[m])]
                    == m by {
                    if m < n {
                        assert(keys2[m] == keys[m]);
                        if edge_code(keys[m]) == code {
                            lemma_edge_code_injective(keys[m], k);
                            assert(keys.contains(k));
                        }
                    }
                }
            }
        },
    }
}

/// Builds the edge table of a triangle list: every distinct undirected edge
/// once, as `(smaller, larger)` endpoint pair, in order of first occurrence,
/// each with the indices of the triangles it belongs to (once per
/// occurrence, in triangle order).
pub fn build_edges(triangles: &Vec<QemTriangle>) -> (result: (Vec<QemEdge>, Vec<Vec<usize>>))
    ensures
        edge_keys_of(result.0@) == keys_of(dedup_keys(edge_occurrences(triangles@, triangles@.len()))),
        edge_keys_of(result.0@).no_duplicates(),
        forall|k: (usize, usize)| #[trigger]
            edge_keys_of(result.0@).contains(k) <==> keys_of(
                edge_occurrences(triangles@, triangles@.len()),
            ).contains(k),
        result.1@.len() == result.0@.len(),
        forall|i: int|
            0 <= i < result.0@.len() ==> (#[trigger] result.1@[i])@ == triangles_with(
                edge_occurrences(triangles@, triangles@.len()),
                edge_keys_of(result.0@)[i],
            ),
        forall|i: int| 0 <= i < result.0@.len() ==> !(#[trigger] result.0@[i]).is_deleted,
{
    let mut map: HashMap<u128, usize> = HashMap::new();
    let mut edges: Vec<QemEdge> = Vec::new();
    let mut edge_tris: Vec<Vec<usize>> = Vec::new();
    let n = triangles.len();
    proof {
        assert(edge_keys_of(edges@) =~= keys_of(dedup_keys(edge_occurrences(triangles@, 0))));
    }
    let mut t: usize = 0;
    while t < n
        invariant
            n == triangles@.len(),
            t <= n,
            edge_table_inv(map@, edges@, edge_tris@, edge_occurrences(triangles@, t as nat)),
        decreases n - t,
    {
        let ghost occ = edge_occurrences(triangles@, t as nat);
        let v = triangles[t].vertices;
        let ghost ks = triangle_edge_keys(v);
        record_edge(&mut map, &mut edges, &mut edge_tris, v[0], v[1], t, Ghost(occ));
        record_edge(&mut map, &mut edges, &mut edge_tris, v[1], v[2], t, Ghost(occ.push((ks[0], t))));
        record_edge(&mut map, &mut edges, &mut edge_tris, v[2], v[0], t, Ghost(occ.push((ks[0], t)).push((ks[1], t))));
        assert(occ.push((ks[0], t)).push((ks[1], t)).push((ks[2], t)) =~= edge_occurrences(triangles@, (t + 1) as nat));
        t = t + 1;
    }
    proof {
        lemma_dedup_keys(edge_occurrences(triangles@, n as nat));
    }
    (edges, edge_tris)
}


/// Indices of the live edges among the first `n` that have `v` as an
/// endpoint, in increasing order; an edge with both ends at `v` is listed
/// twice.
pub open spec fn incident(edges: Seq<QemEdge>, v: int, n: nat) -> Seq<usize>
    decreases n,
{
    if n == 0 {
        Seq::empty()
    } else {
        let e = edges[n - 1];
        let before = incident(edges, v, (n - 1) as nat);
        if e.is_deleted {
            before
        } else {
            let with_first = if e.v0 == v {
                before.push((n - 1) as usize)
            } else {
                before
            };
            if e.v1 == v {
                with_first.push((n - 1) as usize)
            } else {
                with_first
            }
        }
    }
}

proof fn lemma_incident_bound(edges: Seq<QemEdge>, v: int, n: nat)
    requires
        n <= edges.len(),
        n <= usize::MAX,
    ensures
        forall|j: int|
            0 <= j < incident(edges, v, n).len() ==> #[trigger] incident(edges, v, n)[j] < n
                && !edges[incident(edges, v, n)[j] as int].is_deleted,
    decreases n,
{
    if n > 0 {
        lemma_incident_bound(edges, v, (n - 1) as nat);
        let before = incident(edges, v, (n - 1) as nat);
        let e = edges[n - 1];
        let with_first = if e.v0 == v {
            before.push((n - 1) as usize)
        } else {
            before
        };
        assert forall|j: int| 0 <= j < with_first.len() implies #[trigger] with_first[j] < n
            && !edges[with_first[j] as int].is_deleted || e.is_deleted by {
            if j < before.len() {
                assert(with_first[j] == before[j]);
            }
        }
        if !e.is_deleted {
            let all = if e.v1 == v {
                with_first.push((n - 1) as usize)
            } else {
                with_first
            };
            assert forall|j: int| 0 <= j < all.len() implies #[trigger] all[j] < n
                && !edges[all[j] as int].is_deleted by {
                if j < with_first.len() {
                    assert(all[j] == with_first[j]);
                }
            }
        }
    }
}

/// Appends `x` to list `v`.
fn push_to_list(lists: &mut Vec<Vec<usize>>, v: usize, x: usize)
    requires
        v < old(lists)@.len(),
    ensures
        final(lists)@.len() == old(lists)@.len(),
        final(lists)@[v as int]@ == old(lists)@[v as int]@.push(x),
        forall|u: int| 0 <= u < old(lists)@.len() && u != v ==> #[trigger] final(lists)@[u] == old(lists)@[u],
{
    let mut list = lists[v].clone();
    assert(list@ =~= lists@[v as int]@);
    list.push(x);
    lists.set(v, list);
}

/// The edge list of every vertex: live edges `e` with `v` as an endpoint,
/// in increasing order (twice when both ends are `v`).
pub fn update_vertex_edges(vertex_count: usize, edges: &Vec<QemEdge>) -> (lists: Vec<Vec<usize>>)
    requires
        forall|e: int|
            0 <= e < edges@.len() && !(#[trigger] edges@[e]).is_deleted ==> edges@[e].v0 < vertex_count
                && edges@[e].v1 < vertex_count,
    ensures
        lists@.len() == vertex_count,
        forall|v: int| 0 <= v < vertex_count ==> (#[trigger] lists@[v])@ == incident(edges@, v, edges@.len()),
{
    let mut lists: Vec<Vec<usize>> = Vec::new();
    let mut v: usize = 0;
    while v < vertex_count
        invariant
            v <= vertex_count,
            lists@.len() == v,
            forall|u: int| 0 <= u < v ==> (#[trigger] lists@[u])@ == Seq::<usize>::empty(),
        decreases vertex_count - v,
    {
        lists.push(Vec::new());
        v = v + 1;
    }
    let n = edges.len();
    let mut e: usize = 0;
    while e < n
        invariant
            n == edges@.len(),
            e <= n,
            lists@.len() == vertex_count,
            forall|f: int|
                0 <= f < edges@.len() && !(#[trigger] edges@[f]).is_deleted ==> edges@[f].v0 < vertex_count
                    && edges@[f].v1 < vertex_count,
            forall|u: int| 0 <= u < vertex_count ==> (#[trigger] lists@[u])@ == incident(edges@, u, e as nat),
        decreases n - e,
    {
        let edge = edges[e];
        if !edge.is_deleted {
            let ghost before = lists@;
            push_to_list(&mut lists, edge.v0, e);
            let ghost middle = lists@;
            push_to_list(&mut lists, edge.v1, e);
            assert forall|u: int| 0 <= u < vertex_count implies (#[trigger] lists@[u])@ == incident(
                edges@,
                u,
                (e + 1) as nat,
            ) by {
                if u == edge.v0 && u == edge.v1 {
                } else if u == edge.v0 {
                    assert(lists@[u] == middle[u]);
                } else if u == edge.v1 {
                    assert(middle[u] == before[u]);
                } else {
                    assert(lists@[u] == middle[u]);
                    assert(middle[u] == before[u]);
                }
            }
        }
        e = e + 1;
    }
    lists
}

/// `x`, with `from` replaced by `to`.
pub open spec fn remap(x: usize, from: usize, to: usize) -> usize {
    if x == from {
        to
    } else {
        x
    }
}

/// The corners of `t`, with `from` replaced by `to`.
pub open spec fn remap3(t: [usize; 3], from: usize, to: usize) -> [usize; 3] {
    [remap(t[0], from, to), remap(t[1], from, to), remap(t[2], from, to)]
}

/// Two corners coincide.
pub open spec fn degenerate(t: [usize; 3]) -> bool {
    t[0] == t[1] || t[1] == t[2] || t[2] == t[0]
}

/// A triangle after collapsing `from` into `to`: live triangles are
/// re-pointed at `to` and removed when they contained the collapsed edge
/// (`doomed`) or became degenerate; removed triangles stay as they were.
pub open spec fn collapse_triangle(t: QemTriangle, doomed: bool, from: usize, to: usize) -> QemTriangle {
    if t.is_deleted {
        t
    } else {
        let vs = remap3(t.vertices, from, to);
        QemTriangle { vertices: vs, is_deleted: doomed || degenerate(vs) }
    }
}

/// All triangles after collapsing `from` into `to`, where `doomed` lists
/// the triangles of the collapsed edge.
pub open spec fn collapsed_triangles(tris: Seq<QemTriangle>, doomed: Seq<usize>, from: usize, to: usize) -> Seq<QemTriangle> {
    Seq::new(tris.len(), |i: int| collapse_triangle(tris[i], doomed.contains(i as usize), from, to))
}

/// An edge after moving its `from` endpoint to `to`: a live edge has its
/// first endpoint equal to `from` moved, or else its second one, and is
/// removed when both endpoints then coincide.
pub open spec fn transfer_edge(e: QemEdge, from: usize, to: usize) -> QemEdge {
    if e.is_deleted {
        e
    } else {
        let moved = if e.v0 == from {
            QemEdge { v0: to, v1: e.v1, is_deleted: e.is_deleted }
        } else if e.v1 == from {
            QemEdge { v0: e.v0, v1: to, is_deleted: e.is_deleted }
        } else {
            e
        };
        if moved.v0 == moved.v1 {
            QemEdge { v0: moved.v0, v1: moved.v1, is_deleted: true }
        } else {
            moved
        }
    }
}

/// The edges after applying `transfer_edge` once per entry of `list`, in
/// order, skipping entries equal to `skip`.
pub open spec fn transfer_edges(edges: Seq<QemEdge>, list: Seq<usize>, skip: usize, from: usize, to: usize) -> Seq<QemEdge>
    decreases list.len(),
{
    if list.len() == 0 {
        edges
    } else {
        let before = transfer_edges(edges, list.drop_last(), skip, from, to);
        let o = list.last();
        if o == skip {
            before
        } else {
            before.update(o as int, transfer_edge(before[o as int], from, to))
        }
    }
}

proof fn lemma_transfer_edges_len(edges: Seq<QemEdge>, list: Seq<usize>, skip: usize, from: usize, to: usize)
    requires
        forall|x: int| 0 <= x < list.len() ==> #[trigger] list[x] < edges.len(),
    ensures
        transfer_edges(edges, list, skip, from, to).len() == edges.len(),
    decreases list.len(),
{
    if list.len() > 0 {
        lemma_transfer_edges_len(edges, list.drop_last(), skip, from, to);
    }
}

/// Connectivity of the mesh being simplified.
pub struct QemTopology {
    /// Vertex removed by a collapse.
    pub vertex_deleted: Vec<bool>,
    /// Edges incident to each vertex (see `incident`).
    pub vertex_edges: Vec<Vec<usize>>,
    /// All edges, live and removed.
    pub edges: Vec<QemEdge>,
    /// Triangles of each edge, as built.
    pub edge_triangles: Vec<Vec<usize>>,
    /// All triangles, live and removed.
    pub triangles: Vec<QemTriangle>,
}

impl QemTopology {
    /// The tables agree: live edges join existing vertices, edge triangle
    /// lists point at triangles, and every vertex's edge list is exactly
    /// its incident live edges.
    pub open spec fn wf(&self) -> bool {
        &&& self.vertex_edges@.len() == self.vertex_deleted@.len()
        &&& self.edge_triangles@.len() == self.edges@.len()
        &&& forall|e: int|
            0 <= e < self.edges@.len() && !(#[trigger] self.edges@[e]).is_deleted ==> self.edges@[e].v0
                < self.vertex_deleted@.len() && self.edges@[e].v1 < self.vertex_deleted@.len()
        &&& forall|e: int, j: int|
            0 <= e < self.edges@.len() && 0 <= j < self.edge_triangles@[e]@.len() ==> #[trigger] self.edge_triangles@[e]@[j]
                < self.triangles@.len()
        &&& forall|v: int|
            0 <= v < self.vertex_deleted@.len() ==> (#[trigger] self.vertex_edges@[v])@ == incident(
                self.edges@,
                v,
                self.edges@.len(),
            )
    }

    /// Collapses edge `edge_idx`: its second endpoint `w` is merged into
    /// its first endpoint `u`. Live triangles are re-pointed from `w` to
    /// `u`; those of the edge and those that became degenerate are removed;
    /// each listed edge of `w` (other than this one) is moved to `u` and
    /// removed if degenerate; `w` and the edge are removed and the vertex
    /// edge lists are rebuilt. Returns false, changing nothing, when the
    /// edge was already removed.
    pub fn collapse_edge(&mut self, edge_idx: usize) -> (collapsed: bool)
        requires
            old(self).wf(),
            edge_idx < old(self).edges@.len(),
        ensures
            final(self).wf(),
            collapsed == !old(self).edges@[edge_idx as int].is_deleted,
            !collapsed ==> *final(self) == *old(self),
            collapsed ==> ({
                let e = old(self).edges@[edge_idx as int];
                &&& final(self).triangles@ == collapsed_triangles(
                    old(self).triangles@,
                    old(self).edge_triangles@[edge_idx as int]@,
                    e.v1,
                    e.v0,
                )
                &&& final(self).edges@ == transfer_edges(
                    old(self).edges@,
                    old(self).vertex_edges@[e.v1 as int]@,
                    edge_idx,
                    e.v1,
                    e.v0,
                ).update(edge_idx as int, QemEdge { v0: e.v0, v1: e.v1, is_deleted: true })
                &&& final(self).vertex_deleted@ == old(self).vertex_deleted@.update(e.v1 as int, true)
                &&& final(self).edge_triangles@ == old(self).edge_triangles@
            }),
    {
        let edge = self.edges[edge_idx];
        if edge.is_deleted {
            return false;
        }
        let v0_idx = edge.v0;
        let v1_idx = edge.v1;
        let ghost old_self = *self;
        let ghost doomed = self.edge_triangles@[edge_idx as int]@;
        let ntri = self.triangles.len();
        // Re-point live triangles from v1 to v0.
        let mut i: usize = 0;
        while i < ntri
            invariant
                ntri == self.triangles@.len(),
                ntri == old_self.triangles@.len(),
                old_self.wf(),
                edge_idx < old_self.edges@.len(),
                self.edges@ == old_self.edges@,
                self.edge_triangles@ == old_self.edge_triangles@,
                self.vertex_edges@ == old_self.vertex_edges@,
                self.vertex_deleted@ == old_self.vertex_deleted@,
                i <= ntri,
                forall|k: int|
                    0 <= k < ntri ==> #[trigger] self.triangles@[k] == if k < i && !old_self.triangles@[k].is_deleted {
                        QemTriangle { vertices: remap3(old_self.triangles@[k].vertices, v1_idx, v0_idx), is_deleted: false }
                    } else {
                        old_self.triangles@[k]
                    },
            decreases ntri - i,
        {
            let t = self.triangles[i];
            if !t.is_deleted {
                let a = if t.vertices[0] == v1_idx { v0_idx } else { t.vertices[0] };
                let b = if t.vertices[1] == v1_idx { v0_idx } else { t.vertices[1] };
                let c = if t.vertices[2] == v1_idx { v0_idx } else { t.vertices[2] };
                let nt = QemTriangle { vertices: [a, b, c], is_deleted: false };
                assert(nt.vertices@ =~= remap3(t.vertices, v1_idx, v0_idx)@);
                self.triangles.set(i, nt);
            }
            i = i + 1;
        }
        // Remove the triangles of the collapsed edge.
        let doomed_list = self.edge_triangles[edge_idx].clone();
        assert(doomed_list@ =~= doomed);
        let mut j: usize = 0;
        while j < doomed_list.len()
            invariant
                ntri == self.triangles@.len(),
                ntri == old_self.triangles@.len(),
                old_self.wf(),
                edge_idx < old_self.edges@.len(),
                self.edges@ == old_self.edges@,
                self.edge_triangles@ == old_self.edge_triangles@,
                self.vertex_edges@ == old_self.vertex_edges@,
                self.vertex_deleted@ == old_self.vertex_deleted@,
                doomed_list@ == doomed,
                j <= doomed.len(),
                forall|x: int| 0 <= x < doomed.len() ==> #[trigger] doomed[x] < ntri,
                forall|k: int|
                    0 <= k < ntri ==> #[trigger] self.triangles@[k] == if old_self.triangles@[k].is_deleted {
                        old_self.triangles@[k]
                    } else {
                        QemTriangle {
                            vertices: remap3(old_self.triangles@[k].vertices, v1_idx, v0_idx),
                            is_deleted: doomed.subrange(0, j as int).contains(k as usize),
                        }
                    },
            decreases doomed.len() - j,
        {
            let tri_idx = doomed_list[j];
            let t = self.triangles[tri_idx];
            if !t.is_deleted {
                self.triangles.set(tri_idx, QemTriangle { vertices: t.vertices, is_deleted: true });
            }
            proof {
                assert forall|k: int| 0 <= k < ntri implies #[trigger] self.triangles@[k] == if old_self.triangles@[k].is_deleted {
                    old_self.triangles@[k]
                } else {
                    QemTriangle {
                        vertices: remap3(old_self.triangles@[k].vertices, v1_idx, v0_idx),
                        is_deleted: doomed.subrange(0, j + 1).contains(k as usize),
                    }
                } by {
                    let pre = doomed.subrange(0, j as int);
                    let post = doomed.subrange(0, j + 1);
                    assert(post =~= pre.push(doomed[j as int]));
                    if pre.contains(k as usize) {
                        let x = choose|x: int| 0 <= x < pre.len() && pre[x] == k as usize;
                        assert(post[x] == k as usize);
                    }
                    if post.contains(k as usize) && k != tri_idx {
                        let x = choose|x: int| 0 <= x < post.len() && post[x] == k as usize;
                        assert(x < j);
                        assert(pre[x] == k as usize);
                    }
                    if k == tri_idx {
                        assert(post[j as int] == k as usize);
                    }
                }
            }
            j = j + 1;
        }
        assert(doomed.subrange(0, doomed.len() as int) =~= doomed);
        // Remove triangles that became degenerate.
        let mut i: usize = 0;
        while i < ntri
            invariant
                ntri == self.triangles@.len(),
                ntri == old_self.triangles@.len(),
                old_self.wf(),
                edge_idx < old_self.edges@.len(),
                self.edges@ == old_self.edges@,
                self.edge_triangles@ == old_self.edge_triangles@,
                self.vertex_edges@ == old_self.vertex_edges@,
                self.vertex_deleted@ == old_self.vertex_deleted@,
                i <= ntri,
                forall|k: int|
                    0 <= k < ntri ==> #[trigger] self.triangles@[k] == if k < i {
                        collapse_triangle(old_self.triangles@[k], doomed.contains(k as usize), v1_idx, v0_idx)
                    } else if old_self.triangles@[k].is_deleted {
                        old_self.triangles@[k]
                    } else {
                        QemTriangle {
                            vertices: remap3(old_self.triangles@[k].vertices, v1_idx, v0_idx),
                            is_deleted: doomed.contains(k as usize),
                        }
                    },
            decreases ntri - i,
        {
            let t = self.triangles[i];
            if !t.is_deleted {
                if t.vertices[0] == t.vertices[1] || t.vertices[1] == t.vertices[2] || t.vertices[2] == t.vertices[0] {
                    self.triangles.set(i, QemTriangle { vertices: t.vertices, is_deleted: true });
                }
            }
            i = i + 1;
        }
        assert(self.triangles@ =~= collapsed_triangles(old_self.triangles@, doomed, v1_idx, v0_idx));
        // Move the other edges of v1 to v0.
        let nedges = self.edges.len();
        let v1_edges = self.vertex_edges[v1_idx].clone();
        let ghost list = old_self.vertex_edges@[v1_idx as int]@;
        assert(v1_edges@ =~= list);
        proof {
            lemma_incident_bound(old_self.edges@, v1_idx as int, old_self.edges@.len());
        }
        let mut k: usize = 0;
        while k < v1_edges.len()
            invariant
                old_self.wf(),
                edge_idx < old_self.edges@.len(),
                self.edge_triangles@ == old_self.edge_triangles@,
                self.vertex_edges@ == old_self.vertex_edges@,
                self.vertex_deleted@ == old_self.vertex_deleted@,
                self.triangles@ == collapsed_triangles(old_self.triangles@, doomed, v1_idx, v0_idx),
                v1_edges@ == list,
                list == incident(old_self.edges@, v1_idx as int, old_self.edges@.len()),
                nedges == old_self.edges@.len(),
                forall|x: int| 0 <= x < list.len() ==> #[trigger] list[x] < nedges,
                k <= list.len(),
                self.edges@ == transfer_edges(old_self.edges@, list.subrange(0, k as int), edge_idx, v1_idx, v0_idx),
                self.edges@.len() == nedges,
            decreases list.len() - k,
        {
            let other = v1_edges[k];
            proof {
                assert(list.subrange(0, k + 1).drop_last() =~= list.subrange(0, k as int));
                lemma_transfer_edges_len(old_self.edges@, list.subrange(0, k + 1), edge_idx, v1_idx, v0_idx);
            }
            if other != edge_idx {
                let e = self.edges[other];
                if !e.is_deleted {
                    let moved = if e.v0 == v1_idx {
                        QemEdge { v0: v0_idx, v1: e.v1, is_deleted: e.is_deleted }
                    } else if e.v1 == v1_idx {
                        QemEdge { v0: e.v0, v1: v0_idx, is_deleted: e.is_deleted }
                    } else {
                        e
                    };
                    let fixed = if moved.v0 == moved.v1 {
                        QemEdge { v0: moved.v0, v1: moved.v1, is_deleted: true }
                    } else {
                        moved
                    };
                    self.edges.set(other, fixed);
                }
            }
            assert(self.edges@ =~= transfer_edges(old_self.edges@, list.subrange(0, k + 1), edge_idx, v1_idx, v0_idx));
            k = k + 1;
        }
        assert(list.subrange(0, list.len() as int) =~= list);
        // Remove v1 and the edge, and rebuild the vertex edge lists.
        self.vertex_deleted.set(v1_idx, true);
        let dead = QemEdge { v0: v0_idx, v1: v1_idx, is_deleted: true };
        self.edges.set(edge_idx, dead);
        proof {
            lemma_transfer_edges_endpoints(old_self.edges@, list, edge_idx, v1_idx, v0_idx, old_self.vertex_deleted@.len());
        }
        let vertex_count = self.vertex_deleted.len();
        let lists = update_vertex_edges(vertex_count, &self.edges);
        self.vertex_edges = lists;
        true
    }
}

proof fn lemma_transfer_edges_endpoints(
    edges: Seq<QemEdge>,
    list: Seq<usize>,
    skip: usize,
    from: usize,
    to: usize,
    vc: nat,
)
    requires
        to < vc,
        forall|e: int|
            0 <= e < edges.len() && !(#[trigger] edges[e]).is_deleted ==> edges[e].v0 < vc && edges[e].v1 < vc,
        forall|x: int| 0 <= x < list.len() ==> #[trigger] list[x] < edges.len(),
    ensures
        forall|e: int|
            0 <= e < edges.len() && !(#[trigger] transfer_edges(edges, list, skip, from, to)[e]).is_deleted
                ==> transfer_edges(edges, list, skip, from, to)[e].v0 < vc && transfer_edges(
                edges,
                list,
                skip,
                from,
                to,
            )[e].v1 < vc,
        transfer_edges(edges, list, skip, from, to).len() == edges.len(),
    decreases list.len(),
{
    lemma_transfer_edges_len(edges, list, skip, from, to);
    if list.len() > 0 {
        lemma_transfer_edges_endpoints(edges, list.drop_last(), skip, from, to, vc);
    }
}


/// Number of live triangles in `tris`.
pub open spec fn count_live(tris: Seq<QemTriangle>) -> nat
    decreases tris.len(),
{
    if tris.len() == 0 {
        0
    } else {
        count_live(tris.drop_last()) + if tris.last().is_deleted { 0nat } else { 1nat }
    }
}

proof fn lemma_count_live_bound(tris: Seq<QemTriangle>)
    ensures
        count_live(tris) <= tris.len(),
    decreases tris.len(),
{
    if tris.len() > 0 {
        lemma_count_live_bound(tris.drop_last());
    }
}

/// Triangles of an index buffer: one per complete group of three indices.
pub open spec fn triangles_from_indices(indices: Seq<u32>) -> Seq<QemTriangle> {
    Seq::new(
        indices.len() / 3,
        |c: int|
            QemTriangle {
                vertices: [indices[3 * c] as usize, indices[3 * c + 1] as usize, indices[3 * c + 2] as usize],
                is_deleted: false,
            },
    )
}

proof fn lemma_occurrences_bounds(tris: Seq<QemTriangle>, n: nat, vc: int)
    requires
        n <= tris.len(),
        n <= usize::MAX,
        forall|t: int, c: int| 0 <= t < n && 0 <= c < 3 ==> #[trigger] tris[t].vertices[c] < vc,
    ensures
        forall|j: int|
            0 <= j < edge_occurrences(tris, n).len() ==> (#[trigger] edge_occurrences(tris, n)[j]).0.0 < vc
                && edge_occurrences(tris, n)[j].0.1 < vc && edge_occurrences(tris, n)[j].1 < n,
        edge_occurrences(tris, n).len() == 3 * n,
    decreases n,
{
    if n > 0 {
        lemma_occurrences_bounds(tris, (n - 1) as nat, vc);
        let t = n - 1;
        let v = tris[t].vertices;
        assert(v[0] < vc && v[1] < vc && v[2] < vc);
        let prev = edge_occurrences(tris, (n - 1) as nat);
        let ks = triangle_edge_keys(v);
        let occ = edge_occurrences(tris, n);
        assert forall|j: int| 0 <= j < occ.len() implies (#[trigger] occ[j]).0.0 < vc && occ[j].0.1 < vc
            && occ[j].1 < n by {
            if j < prev.len() {
                assert(occ[j] == prev[j]);
            }
        }
    }
}

proof fn lemma_triangles_with_bound(occ: Seq<((usize, usize), usize)>, k: (usize, usize), bound: int)
    requires
        forall|j: int| 0 <= j < occ.len() ==> (#[trigger] occ[j]).1 < bound,
    ensures
        forall|i: int| 0 <= i < triangles_with(occ, k).len() ==> #[trigger] triangles_with(occ, k)[i] < bound,
    decreases occ.len(),
{
    if occ.len() > 0 {
        assert forall|j: int| 0 <= j < occ.drop_last().len() implies (#[trigger] occ.drop_last()[j]).1 < bound by {
            assert(occ.drop_last()[j] == occ[j]);
        }
        lemma_triangles_with_bound(occ.drop_last(), k, bound);
        let before = triangles_with(occ.drop_last(), k);
        let all = triangles_with(occ, k);
        assert forall|i: int| 0 <= i < all.len() implies #[trigger] all[i] < bound by {
            if i < before.len() {
                assert(all[i] == before[i]);
            }
        }
    }
}

impl QemTopology {
    /// Connectivity of an indexed triangle mesh with `vertex_count`
    /// vertices: one triangle per complete group of three indices, the edge
    /// table of those triangles, no vertex removed.
    pub fn from_indices(vertex_count: usize, indices: &Vec<u32>) -> (topology: Self)
        requires
            forall|i: int| 0 <= i < 3 * (indices@.len() / 3) ==> #[trigger] indices@[i] < vertex_count,
        ensures
            topology.wf(),
            topology.triangles@ == triangles_from_indices(indices@),
            topology.vertex_deleted@ == Seq::new(vertex_count as nat, |v: int| false),
            edge_keys_of(topology.edges@) == keys_of(
                dedup_keys(edge_occurrences(topology.triangles@, topology.triangles@.len())),
            ),
            forall|i: int|
                0 <= i < topology.edges@.len() ==> (#[trigger] topology.edge_triangles@[i])@ == triangles_with(
                    edge_occurrences(topology.triangles@, topology.triangles@.len()),
                    edge_keys_of(topology.edges@)[i],
                ),
            forall|i: int| 0 <= i < topology.edges@.len() ==> !(#[trigger] topology.edges@[i]).is_deleted,
    {
        let ntri = indices.len() / 3;
        let mut triangles: Vec<QemTriangle> = Vec::new();
        let mut c: usize = 0;
        while c < ntri
            invariant
                ntri == indices@.len() / 3,
                3 * ntri <= indices@.len(),
                indices@.len() <= usize::MAX,
                c <= ntri,
                triangles@ == triangles_from_indices(indices@).subrange(0, c as int),
            decreases ntri - c,
        {
            let a = indices[3 * c] as usize;
            let b = indices[3 * c + 1] as usize;
            let d = indices[3 * c + 2] as usize;
            let t = QemTriangle { vertices: [a, b, d], is_deleted: false };
            assert(t.vertices@ =~= triangles_from_indices(indices@)[c as int].vertices@);
            triangles.push(t);
            assert(triangles@ =~= triangles_from_indices(indices@).subrange(0, c + 1));
            c = c + 1;
        }
        assert(triangles@ =~= triangles_from_indices(indices@));
        let mut vertex_deleted: Vec<bool> = Vec::new();
        let mut v: usize = 0;
        while v < vertex_count
            invariant
                v <= vertex_count,
                vertex_deleted@ =~= Seq::new(v as nat, |u: int| false),
            decreases vertex_count - v,
        {
            vertex_deleted.push(false);
            v = v + 1;
        }
        let (edges, edge_triangles) = build_edges(&triangles);
        let ghost occ = edge_occurrences(triangles@, triangles@.len());
        proof {
            assert forall|t: int, k: int| 0 <= t < triangles@.len() && 0 <= k < 3 implies #[trigger] triangles@[t].vertices[k]
                < vertex_count by {
                assert(3 * t + k < 3 * (indices@.len() / 3));
            }
            lemma_occurrences_bounds(triangles@, triangles@.len(), vertex_count as int);
            assert forall|e: int| 0 <= e < edges@.len() && !(#[trigger] edges@[e]).is_deleted implies edges@[e].v0
                < vertex_count && edges@[e].v1 < vertex_count by {
                let k = edge_keys_of(edges@)[e];
                assert(edge_keys_of(edges@).contains(k));
                assert(keys_of(occ).contains(k));
                let j = choose|j: int| 0 <= j < keys_of(occ).len() && keys_of(occ)[j] == k;
                assert(occ[j].0 == k);
            }
            assert forall|e: int, j: int| 0 <= e < edges@.len() && 0 <= j < edge_triangles@[e]@.len() implies #[trigger] edge_triangles@[e]@[j]
                < triangles@.len() by {
                lemma_triangles_with_bound(occ, edge_keys_of(edges@)[e], triangles@.len() as int);
            }
        }
        let vertex_edges = update_vertex_edges(vertex_count, &edges);
        QemTopology { vertex_deleted, vertex_edges, edges, edge_triangles, triangles }
    }

    /// Number of live triangles.
    pub fn triangle_count(&self) -> (n: usize)
        ensures
            n == count_live(self.triangles@),
    {
        let mut n: usize = 0;
        let mut i: usize = 0;
        while i < self.triangles.len()
            invariant
                i <= self.triangles@.len(),
                n == count_live(self.triangles@.subrange(0, i as int)),
                n <= i,
            decreases self.triangles@.len() - i,
        {
            assert(self.triangles@.subrange(0, i + 1).drop_last() =~= self.triangles@.subrange(0, i as int));
            if !self.triangles[i].is_deleted {
                n = n + 1;
            }
            i = i + 1;
        }
        assert(self.triangles@.subrange(0, i as int) =~= self.triangles@);
        n
    }

    /// Index buffer of what survives: live vertices are renumbered
    /// consecutively in their old order (`vertex_map`), every live triangle
    /// whose corners all survive is emitted with the new numbers, and
    /// triangle `k` of the result is cell `k`.
    pub fn compact(&self) -> (result: CompactedMesh)
        requires
            self.vertex_deleted@.len() <= u32::MAX + 1,
        ensures
            result.vertex_map@ == Seq::new(
                self.vertex_deleted@.len(),
                |v: int| new_vertex_index(self.vertex_deleted@, v),
            ),
            result.indices@ == compacted_indices(self.triangles@, self.vertex_deleted@, self.triangles@.len()),
            result.triangle_to_cell_mapping@ == Seq::new(result.indices@.len() / 3, |k: int| k as usize),
            result.indices@.len() % 3 == 0,
            forall|j: int| 0 <= j < result.indices@.len() ==> #[trigger] result.indices@[j] < live_before(
                self.vertex_deleted@,
                self.vertex_deleted@.len(),
            ),
    {
        let del = &self.vertex_deleted;
        let nv = del.len();
        let mut vertex_map: Vec<Option<u32>> = Vec::new();
        let mut count: usize = 0;
        let mut v: usize = 0;
        while v < nv
            invariant
                nv == del@.len(),
                nv <= u32::MAX + 1,
                v <= nv,
                count == live_before(del@, v as nat),
                count <= v,
                vertex_map@ == Seq::new(v as nat, |u: int| new_vertex_index(del@, u)),
            decreases nv - v,
        {
            if !del[v] {
                vertex_map.push(Some(count as u32));
                count = count + 1;
            } else {
                vertex_map.push(None);
            }
            assert(vertex_map@ =~= Seq::new((v + 1) as nat, |u: int| new_vertex_index(del@, u)));
            v = v + 1;
        }
        let ghost live_total = live_before(del@, nv as nat);
        let ntri = self.triangles.len();
        let mut indices: Vec<u32> = Vec::new();
        let mut mapping: Vec<usize> = Vec::new();
        let mut cell_index: usize = 0;
        let mut t: usize = 0;
        while t < ntri
            invariant
                ntri == self.triangles@.len(),
                nv == del@.len(),
                nv <= u32::MAX + 1,
                del == &self.vertex_deleted,
                live_total == live_before(del@, nv as nat),
                vertex_map@ == Seq::new(nv as nat, |u: int| new_vertex_index(del@, u)),
                t <= ntri,
                indices@ == compacted_indices(self.triangles@, del@, t as nat),
                indices@.len() == 3 * mapping@.len(),
                mapping@ == Seq::new(mapping@.len(), |k: int| k as usize),
                cell_index == mapping@.len(),
                cell_index <= t,
                forall|j: int| 0 <= j < indices@.len() ==> #[trigger] indices@[j] < live_total,
            decreases ntri - t,
        {
            let tri = self.triangles[t];
            if !tri.is_deleted {
                let a = tri.vertices[0];
                let b = tri.vertices[1];
                let c = tri.vertices[2];
                if a < nv && b < nv && c < nv {
                    match (vertex_map[a], vertex_map[b], vertex_map[c]) {
                        (Some(na), Some(nb), Some(nc)) => {
                            proof {
                                lemma_new_index_bound(del@, a as int);
                                lemma_new_index_bound(del@, b as int);
                                lemma_new_index_bound(del@, c as int);
                            }
                            indices.push(na);
                            indices.push(nb);
                            indices.push(nc);
                            mapping.push(cell_index);
                            cell_index = cell_index + 1;
                            assert(mapping@ =~= Seq::new(mapping@.len(), |k: int| k as usize));
                        },
                        _ => {},
                    }
                }
            }
            assert(indices@ =~= compacted_indices(self.triangles@, del@, (t + 1) as nat));
            t = t + 1;
        }
        assert(indices@.len() / 3 == mapping@.len());
        CompactedMesh { vertex_map, indices, triangle_to_cell_mapping: mapping }
    }
}

/// What `QemTopology::compact` produces.
pub struct CompactedMesh {
    /// New index of each old vertex; `None` for removed vertices.
    pub vertex_map: Vec<Option<u32>>,
    /// Triangle list over the new vertex numbers.
    pub indices: Vec<u32>,
    /// Cell of each emitted triangle.
    pub triangle_to_cell_mapping: Vec<usize>,
}

/// Number of live vertices before `v`.
pub open spec fn live_before(del: Seq<bool>, v: nat) -> nat
    decreases v,
{
    if v == 0 {
        0
    } else {
        live_before(del, (v - 1) as nat) + if del[v - 1] { 0nat } else { 1nat }
    }
}

/// New index of vertex `v`: its position among the live vertices, or
/// `None` when it is removed or does not exist.
pub open spec fn new_vertex_index(del: Seq<bool>, v: int) -> Option<u32> {
    if 0 <= v < del.len() && !del[v] {
        Some(live_before(del, v as nat) as u32)
    } else {
        None
    }
}

/// Index buffer of the first `n` triangles after compaction: each live
/// triangle whose three corners survive, renumbered.
pub open spec fn compacted_indices(tris: Seq<QemTriangle>, del: Seq<bool>, n: nat) -> Seq<u32>
    decreases n,
{
    if n == 0 {
        Seq::empty()
    } else {
        let before = compacted_indices(tris, del, (n - 1) as nat);
        let t = tris[n - 1];
        let a = new_vertex_index(del, t.vertices[0] as int);
        let b = new_vertex_index(del, t.vertices[1] as int);
        let c = new_vertex_index(del, t.vertices[2] as int);
        if !t.is_deleted && a is Some && b is Some && c is Some {
            before + seq![a->0, b->0, c->0]
        } else {
            before
        }
    }
}

proof fn lemma_live_before_mono(del: Seq<bool>, a: nat, b: nat)
    requires
        a <= b,
    ensures
        live_before(del, a) <= live_before(del, b),
        live_before(del, b) <= live_before(del, a) + (b - a),
    decreases b - a,
{
    if a < b {
        lemma_live_before_mono(del, a, (b - 1) as nat);
    }
}

proof fn lemma_new_index_bound(del: Seq<bool>, v: int)
    requires
        0 <= v < del.len(),
        !del[v],
        del.len() <= u32::MAX + 1,
    ensures
        new_vertex_index(del, v) == Some(live_before(del, v as nat) as u32),
        (live_before(del, v as nat) as u32) as int == live_before(del, v as nat),
        live_before(del, v as nat) < live_before(del, del.len()),
{
    lemma_live_before_mono(del, 0, v as nat);
    lemma_live_before_mono(del, (v + 1) as nat, del.len());
}

/// Number of edge collapses the simplifier may try when reducing
/// `current_triangles` towards `target_triangles`: the shortfall, but never
/// more than half of the current triangles.
pub fn qem_collapse_budget(current_triangles: usize, target_triangles: usize) -> (budget: usize)
    ensures
        budget == if current_triangles > target_triangles {
            if current_triangles - target_triangles <= current_triangles / 2 {
                current_triangles - target_triangles
            } else {
                (current_triangles / 2) as int
            }
        } else {
            0int
        },
{
    let shortfall = current_triangles.saturating_sub(target_triangles);
    let half = current_triangles / 2;
    if shortfall <= half {
        shortfall
    } else {
        half
    }
}


/// After collapsing vertex `from` into a different vertex `to`, no live
/// triangle has `from` as a corner, no live triangle is degenerate, and
/// there are no more live triangles than before.
pub proof fn law_collapse_clears_triangles(tris: Seq<QemTriangle>, doomed: Seq<usize>, from: usize, to: usize)
    requires
        from != to,
    ensures
        forall|i: int|
            0 <= i < tris.len() && !(#[trigger] collapsed_triangles(tris, doomed, from, to)[i]).is_deleted ==> {
                let t = collapsed_triangles(tris, doomed, from, to)[i];
                &&& t.vertices[0] != from
                &&& t.vertices[1] != from
                &&& t.vertices[2] != from
                &&& !degenerate(t.vertices)
            },
        count_live(collapsed_triangles(tris, doomed, from, to)) <= count_live(tris),
{
    let after = collapsed_triangles(tris, doomed, from, to);
    assert forall|i: int| 0 <= i < tris.len() implies !(#[trigger] after[i]).is_deleted ==> !tris[i].is_deleted by {}
    lemma_count_live_pointwise(tris, after);
}

proof fn lemma_count_live_pointwise(a: Seq<QemTriangle>, b: Seq<QemTriangle>)
    requires
        a.len() == b.len(),
        forall|i: int| 0 <= i < a.len() ==> !(#[trigger] b[i]).is_deleted ==> !a[i].is_deleted,
    ensures
        count_live(b) <= count_live(a),
    decreases a.len(),
{
    if a.len() > 0 {
        assert forall|i: int| 0 <= i < a.drop_last().len() implies !(#[trigger] b.drop_last()[i]).is_deleted
            ==> !a.drop_last()[i].is_deleted by {
            assert(b.drop_last()[i] == b[i]);
            assert(a.drop_last()[i] == a[i]);
        }
        lemma_count_live_pointwise(a.drop_last(), b.drop_last());
        assert(!b.last().is_deleted ==> !a.last().is_deleted);
    }
}

/// Number of times `x` occurs in `s`.
pub open spec fn occurrences_of(s: Seq<usize>, x: usize) -> nat
    decreases s.len(),
{
    if s.len() == 0 {
        0
    } else {
        occurrences_of(s.drop_last(), x) + if s.last() == x { 1nat } else { 0nat }
    }
}

/// `transfer_edge` applied `m` times.
pub open spec fn transfer_edge_times(e: QemEdge, m: nat, from: usize, to: usize) -> QemEdge
    decreases m,
{
    if m == 0 {
        e
    } else {
        transfer_edge(transfer_edge_times(e, (m - 1) as nat, from, to), from, to)
    }
}

proof fn lemma_transfer_edges_pointwise(edges: Seq<QemEdge>, list: Seq<usize>, skip: usize, from: usize, to: usize)
    requires
        forall|x: int| 0 <= x < list.len() ==> #[trigger] list[x] < edges.len(),
        edges.len() <= usize::MAX,
    ensures
        forall|e: int|
            0 <= e < edges.len() ==> #[trigger] transfer_edges(edges, list, skip, from, to)[e] == if e == skip {
                edges[e]
            } else {
                transfer_edge_times(edges[e], occurrences_of(list, e as usize), from, to)
            },
    decreases list.len(),
{
    if list.len() > 0 {
        let prefix = list.drop_last();
        assert forall|x: int| 0 <= x < prefix.len() implies #[trigger] prefix[x] < edges.len() by {
            assert(prefix[x] == list[x]);
        }
        lemma_transfer_edges_pointwise(edges, prefix, skip, from, to);
        lemma_transfer_edges_len(edges, prefix, skip, from, to);
        let o = list.last();
        let before = transfer_edges(edges, prefix, skip, from, to);
        assert forall|e: int| 0 <= e < edges.len() implies #[trigger] transfer_edges(edges, list, skip, from, to)[e]
            == if e == skip {
            edges[e]
        } else {
            transfer_edge_times(edges[e], occurrences_of(list, e as usize), from, to)
        } by {
            let m = occurrences_of(prefix, e as usize);
            assert(occurrences_of(list, e as usize) == m + if o == e as usize { 1nat } else { 0nat });
            if o != skip && e == o {
                assert(transfer_edge_times(edges[e], m + 1, from, to) == transfer_edge(
                    transfer_edge_times(edges[e], m, from, to),
                    from,
                    to,
                ));
            }
        }
    }
}

proof fn lemma_incident_occurrences(edges: Seq<QemEdge>, v: int, n: nat, e: int)
    requires
        n <= edges.len(),
        edges.len() <= usize::MAX,
        0 <= e < edges.len(),
    ensures
        occurrences_of(incident(edges, v, n), e as usize) == if e >= n || edges[e].is_deleted {
            0nat
        } else {
            (if edges[e].v0 == v { 1nat } else { 0nat }) + (if edges[e].v1 == v { 1nat } else { 0nat })
        },
    decreases n,
{
    if n > 0 {
        lemma_incident_occurrences(edges, v, (n - 1) as nat, e);
        let x = e as usize;
        let last = (n - 1) as usize;
        assert(last == x <==> e == n - 1);
        let before = incident(edges, v, (n - 1) as nat);
        let m0 = occurrences_of(before, x);
        let d = edges[n - 1];
        if !d.is_deleted {
            let with_first = if d.v0 == v {
                before.push(last)
            } else {
                before
            };
            if d.v0 == v {
                assert(with_first.drop_last() == before);
            }
            assert(occurrences_of(with_first, x) == m0 + if d.v0 == v && last == x { 1nat } else { 0nat });
            let all = if d.v1 == v {
                with_first.push(last)
            } else {
                with_first
            };
            if d.v1 == v {
                assert(all.drop_last() == with_first);
            }
            assert(all == incident(edges, v, n));
            assert(occurrences_of(all, x) == occurrences_of(with_first, x) + if d.v1 == v && last == x { 1nat } else { 0nat });
        }
    }
}

/// After collapsing a live edge `(u, w)` with `u != w`, with `w`'s edge
/// list being its incident live edges, no live edge has `w` as an
/// endpoint.
pub proof fn law_collapse_detaches_edges(edges: Seq<QemEdge>, edge_idx: usize)
    requires
        edge_idx < edges.len(),
        edges.len() <= usize::MAX,
        !edges[edge_idx as int].is_deleted,
        edges[edge_idx as int].v0 != edges[edge_idx as int].v1,
    ensures
        ({
            let e = edges[edge_idx as int];
            let after = transfer_edges(edges, incident(edges, e.v1 as int, edges.len()), edge_idx, e.v1, e.v0).update(
                edge_idx as int,
                QemEdge { v0: e.v0, v1: e.v1, is_deleted: true },
            );
            forall|x: int| 0 <= x < edges.len() && !(#[trigger] after[x]).is_deleted ==> after[x].v0 != e.v1 && after[x].v1 != e.v1
        }),
{
    let e = edges[edge_idx as int];
    let from = e.v1;
    let to = e.v0;
    let list = incident(edges, from as int, edges.len());
    lemma_incident_bound(edges, from as int, edges.len());
    lemma_transfer_edges_pointwise(edges, list, edge_idx, from, to);
    lemma_transfer_edges_len(edges, list, edge_idx, from, to);
    reveal_with_fuel(transfer_edge_times, 3);
    let moved = transfer_edges(edges, list, edge_idx, from, to);
    let after = moved.update(edge_idx as int, QemEdge { v0: e.v0, v1: e.v1, is_deleted: true });
    assert forall|x: int| 0 <= x < edges.len() && !(#[trigger] after[x]).is_deleted implies after[x].v0 != from
        && after[x].v1 != from by {
        assert(x != edge_idx);
        lemma_incident_occurrences(edges, from as int, edges.len(), x);
        let d = edges[x];
        let m = occurrences_of(list, x as usize);
        assert(after[x] == transfer_edge_times(d, m, from, to));
        if !d.is_deleted {
            if m == 1 {
                assert(transfer_edge_times(d, 1, from, to) == transfer_edge(d, from, to));
            } else if m == 2 {
                let once = transfer_edge(d, from, to);
                assert(transfer_edge_times(d, 1, from, to) == once);
                assert(transfer_edge_times(d, 2, from, to) == transfer_edge(once, from, to));
            }
        } else {
            assert(m == 0);
        }
    }
}

} // verus!
