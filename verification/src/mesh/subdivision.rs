//! Subdivision of triangle meshes: every triangle is split into four, through
//! the midpoints of its edges. Linear triangles take the linear midpoint of
//! each edge, quadratic triangles samples of their quadratic shape functions,
//! and quadratic edges are split in two.
//!
//! The functions here compute the new topology and say where each new vertex
//! comes from ([`VertexSource`]); the caller evaluates the positions.
use crate::mesh::edge_midpoints::{
    dedup_keys, edge_key, keys_of, lemma_dedup_keys, lemma_dedup_keys_push, lemma_index_of_extend, mid, payloads_of,
    EdgeMidpoints,
};
use crate::mesh::{MeshTopology, QuadraticEdge, QuadraticTriangle, VtkError};
use vstd::prelude::*;

verus! {

/// Where a vertex created by subdivision lies.
#[derive(Debug, Clone, Copy, PartialEq, Eq)]
pub enum VertexSource {
    /// The linear midpoint of two existing vertices.
    EdgeMidpoint(u32, u32),
    /// The quadratic shape functions of quadratic triangle `triangle`
    /// evaluated at parametric coordinates `(r / 4, s / 4)`.
    TriangleSample { triangle: usize, r: u8, s: u8 },
    /// The quadratic shape functions of quadratic edge `edge` evaluated at
    /// parametric coordinate `r / 4`.
    EdgeSample { edge: usize, r: u8 },
}

/// Corner `c` of triangle `t` in a triangle index list.
pub open spec fn corner(idx: Seq<u32>, t: int, c: int) -> u32 {
    idx[3 * t + c]
}

/// A midpoint request for edge `a`-`b`, placed at the linear midpoint.
pub open spec fn linear_request(a: u32, b: u32) -> ((u32, u32), VertexSource) {
    (edge_key(a, b), VertexSource::EdgeMidpoint(edge_key(a, b).0, edge_key(a, b).1))
}

/// The midpoint requests of triangles `0..t`: edges 0-1, 1-2 and 2-0 of each
/// triangle in turn.
pub open spec fn linear_requests(idx: Seq<u32>, t: int) -> Seq<((u32, u32), VertexSource)>
    decreases t,
{
    if t <= 0 {
        seq![]
    } else {
        let (v0, v1, v2) = (corner(idx, t - 1, 0), corner(idx, t - 1, 1), corner(idx, t - 1, 2));
        linear_requests(idx, t - 1) + seq![
            linear_request(v0, v1),
            linear_request(v1, v2),
            linear_request(v2, v0),
        ]
    }
}

/// The four triangles replacing `(v0, v1, v2)`, given the midpoints of its
/// edges: three corner triangles and the centre one.
pub open spec fn split_triangle(v0: u32, v1: u32, v2: u32, m01: u32, m12: u32, m20: u32) -> Seq<
    u32,
> {
    seq![v0, m01, m20, m01, v1, m12, m20, m12, v2, m01, m12, m20]
}

/// Subdivided indices of triangles `0..t`, with midpoints from the table
/// `edges` starting at vertex `base`.
pub open spec fn linear_subdivision_indices(
    idx: Seq<u32>,
    t: int,
    edges: Seq<(u32, u32)>,
    base: int,
) -> Seq<u32>
    decreases t,
{
    if t <= 0 {
        seq![]
    } else {
        let (v0, v1, v2) = (corner(idx, t - 1, 0), corner(idx, t - 1, 1), corner(idx, t - 1, 2));
        linear_subdivision_indices(idx, t - 1, edges, base) + split_triangle(
            v0,
            v1,
            v2,
            mid(edges, base, v0, v1),
            mid(edges, base, v1, v2),
            mid(edges, base, v2, v0),
        )
    }
}

/// The edges of triangles `0..t` all lie in `edges`.
pub open spec fn linear_edges_in(idx: Seq<u32>, t: int, edges: Seq<(u32, u32)>) -> bool {
    forall|s: int|
        0 <= s < t ==> {
            &&& edges.contains(edge_key(#[trigger] corner(idx, s, 0), corner(idx, s, 1)))
            &&& edges.contains(edge_key(corner(idx, s, 1), corner(idx, s, 2)))
            &&& edges.contains(edge_key(corner(idx, s, 2), corner(idx, s, 0)))
        }
}

/// `e1` is a prefix of the duplicate-free table `e2`.
pub open spec fn table_prefix(e1: Seq<(u32, u32)>, e2: Seq<(u32, u32)>) -> bool {
    &&& e2.no_duplicates()
    &&& e1.len() <= e2.len()
    &&& e2.subrange(0, e1.len() as int) == e1
}

pub(crate) proof fn lemma_mid_extend(e1: Seq<(u32, u32)>, e2: Seq<(u32, u32)>, base: int, a: u32, b: u32)
    requires
        table_prefix(e1, e2),
        e1.contains(edge_key(a, b)),
    ensures
        mid(e1, base, a, b) == mid(e2, base, a, b),
        e2.contains(edge_key(a, b)),
{
    lemma_index_of_extend(e1, e2, edge_key(a, b));
    let i = e1.index_of(edge_key(a, b));
    assert(e2[i] == e1[i]);
}

proof fn lemma_linear_stable(idx: Seq<u32>, t: int, e1: Seq<(u32, u32)>, e2: Seq<(u32, u32)>, base: int)
    requires
        table_prefix(e1, e2),
        linear_edges_in(idx, t, e1),
    ensures
        linear_subdivision_indices(idx, t, e1, base) == linear_subdivision_indices(idx, t, e2, base),
        linear_edges_in(idx, t, e2),
    decreases t,
{
    if t > 0 {
        lemma_linear_stable(idx, t - 1, e1, e2, base);
        let (v0, v1, v2) = (corner(idx, t - 1, 0), corner(idx, t - 1, 1), corner(idx, t - 1, 2));
        assert(e1.contains(edge_key(v0, v1)));
        lemma_mid_extend(e1, e2, base, v0, v1);
        lemma_mid_extend(e1, e2, base, v1, v2);
        lemma_mid_extend(e1, e2, base, v2, v0);
    }
    assert forall|s: int| 0 <= s < t implies {
        &&& e2.contains(edge_key(#[trigger] corner(idx, s, 0), corner(idx, s, 1)))
        &&& e2.contains(edge_key(corner(idx, s, 1), corner(idx, s, 2)))
        &&& e2.contains(edge_key(corner(idx, s, 2), corner(idx, s, 0)))
    } by {
        assert(e1.contains(edge_key(corner(idx, s, 0), corner(idx, s, 1))));
        lemma_mid_extend(e1, e2, base, corner(idx, s, 0), corner(idx, s, 1));
        lemma_mid_extend(e1, e2, base, corner(idx, s, 1), corner(idx, s, 2));
        lemma_mid_extend(e1, e2, base, corner(idx, s, 2), corner(idx, s, 0));
    }
}

/// Requests the midpoint of edge `a`-`b`, recording where it lies when it is
/// new.
fn request_midpoint(
    table: &mut EdgeMidpoints,
    sources: &mut Vec<VertexSource>,
    a: u32,
    b: u32,
    source: VertexSource,
    Ghost(reqs): Ghost<Seq<((u32, u32), VertexSource)>>,
) -> (m: u32)
    requires
        old(table).wf(),
        old(table).base() + old(table).edges().len() <= u32::MAX,
        old(table).edges() == keys_of(dedup_keys(reqs)),
        old(sources)@ == payloads_of(dedup_keys(reqs)),
    ensures
        final(table).wf(),
        final(table).base() == old(table).base(),
        final(table).edges() == keys_of(dedup_keys(reqs.push((edge_key(a, b), source)))),
        final(sources)@ == payloads_of(dedup_keys(reqs.push((edge_key(a, b), source)))),
        final(table).edges().len() <= old(table).edges().len() + 1,
        table_prefix(old(table).edges(), final(table).edges()),
        old(table).edges().contains(edge_key(a, b)) ==> final(table).edges() == old(
            table,
        ).edges(),
        final(table).edges().contains(edge_key(a, b)),
        m == mid(final(table).edges(), final(table).base(), a, b),
{
    let ghost r = (edge_key(a, b), source);
    proof {
        lemma_dedup_keys_push(reqs, r);
    }
    let (m, created) = table.get_or_create(a, b);
    if created {
        sources.push(source);
    }
    assert(table.edges().subrange(0, old(table).edges().len() as int) =~= old(table).edges());
    m
}

/// `e1` is a prefix of `e2` and `e2` of `e3`.
pub(crate) proof fn lemma_table_prefix_trans(e1: Seq<(u32, u32)>, e2: Seq<(u32, u32)>, e3: Seq<(u32, u32)>)
    requires
        table_prefix(e1, e2),
        table_prefix(e2, e3),
    ensures
        table_prefix(e1, e3),
{
    assert(e3.subrange(0, e1.len() as int) =~= e3.subrange(0, e2.len() as int).subrange(
        0,
        e1.len() as int,
    ));
}

/// Requests the midpoints of three edges in turn, each with the position
/// recipe used when it is new.
pub(crate) fn request_three(
    table: &mut EdgeMidpoints,
    sources: &mut Vec<VertexSource>,
    a0: u32,
    b0: u32,
    s0: VertexSource,
    a1: u32,
    b1: u32,
    s1: VertexSource,
    a2: u32,
    b2: u32,
    s2: VertexSource,
    Ghost(reqs): Ghost<Seq<((u32, u32), VertexSource)>>,
) -> (mids: (u32, u32, u32))
    requires
        old(table).wf(),
        old(table).base() + old(table).edges().len() + 3 <= u32::MAX,
        old(table).edges() == keys_of(dedup_keys(reqs)),
        old(sources)@ == payloads_of(dedup_keys(reqs)),
    ensures
        ({
            let r = reqs + seq![(edge_key(a0, b0), s0), (edge_key(a1, b1), s1), (edge_key(a2, b2), s2)];
            let e = final(table).edges();
            &&& final(table).wf()
            &&& final(table).base() == old(table).base()
            &&& e == keys_of(dedup_keys(r))
            &&& final(sources)@ == payloads_of(dedup_keys(r))
            &&& e.len() <= old(table).edges().len() + 3
            &&& table_prefix(old(table).edges(), e)
            &&& e.contains(edge_key(a0, b0))
            &&& e.contains(edge_key(a1, b1))
            &&& e.contains(edge_key(a2, b2))
            &&& mids.0 == mid(e, final(table).base(), a0, b0)
            &&& mids.1 == mid(e, final(table).base(), a1, b1)
            &&& mids.2 == mid(e, final(table).base(), a2, b2)
        }),
{
    let ghost e0 = table.edges();
    let ghost base = table.base();
    let m0 = request_midpoint(table, sources, a0, b0, s0, Ghost(reqs));
    let ghost e1 = table.edges();
    let ghost r1 = reqs.push((edge_key(a0, b0), s0));
    let m1 = request_midpoint(table, sources, a1, b1, s1, Ghost(r1));
    let ghost e2 = table.edges();
    let ghost r2 = r1.push((edge_key(a1, b1), s1));
    let m2 = request_midpoint(table, sources, a2, b2, s2, Ghost(r2));
    let ghost e3 = table.edges();
    proof {
        assert(reqs + seq![(edge_key(a0, b0), s0), (edge_key(a1, b1), s1), (edge_key(a2, b2), s2)]
            =~= r2.push((edge_key(a2, b2), s2)));
        lemma_table_prefix_trans(e1, e2, e3);
        lemma_table_prefix_trans(e0, e1, e3);
        lemma_mid_extend(e1, e3, base, a0, b0);
        lemma_mid_extend(e2, e3, base, a1, b1);
    }
    (m0, m1, m2)
}

/// Appends the four triangles replacing `(v0, v1, v2)`.
fn push_split_triangle(
    out: &mut Vec<u32>,
    v0: u32,
    v1: u32,
    v2: u32,
    m01: u32,
    m12: u32,
    m20: u32,
)
    ensures
        final(out)@ == old(out)@ + split_triangle(v0, v1, v2, m01, m12, m20),
{
    out.push(v0);
    out.push(m01);
    out.push(m20);
    out.push(m01);
    out.push(v1);
    out.push(m12);
    out.push(m20);
    out.push(m12);
    out.push(v2);
    out.push(m01);
    out.push(m12);
    out.push(m20);
    assert(out@ =~= old(out)@ + split_triangle(v0, v1, v2, m01, m12, m20));
}

/// Standard four-way subdivision of linear triangles.
///
/// Returns the new index list and the midpoint table; the midpoint of
/// `edges[i]` is vertex `base + i`. Each edge gets one midpoint, in the order
/// in which the edges are first met.
fn smooth_4_subdivision(indices: &Vec<u32>, base: u32) -> (res: (
    Vec<u32>,
    EdgeMidpoints,
    Vec<VertexSource>,
))
    requires
        base + indices@.len() <= u32::MAX,
    ensures
        res.1.wf(),
        res.1.base() == base,
        res.1.edges().len() <= indices@.len(),
        res.1.edges() == keys_of(dedup_keys(linear_requests(indices@, (indices@.len() / 3) as int))),
        res.2@ == payloads_of(dedup_keys(linear_requests(indices@, (indices@.len() / 3) as int))),
        res.0@ == linear_subdivision_indices(
            indices@,
            (indices@.len() / 3) as int,
            res.1.edges(),
            base as int,
        ),
{
    let num_triangles = indices.len() / 3;
    let mut new_indices: Vec<u32> = Vec::new();
    let mut table = EdgeMidpoints::new(base);
    let mut sources: Vec<VertexSource> = Vec::new();
    let mut triangle_idx: usize = 0;
    while triangle_idx < num_triangles
        invariant
            num_triangles == indices@.len() / 3,
            triangle_idx <= num_triangles,
            base + indices@.len() <= u32::MAX,
            table.wf(),
            table.base() == base,
            table.edges().len() <= 3 * triangle_idx,
            table.edges() == keys_of(dedup_keys(linear_requests(indices@, triangle_idx as int))),
            sources@ == payloads_of(dedup_keys(linear_requests(indices@, triangle_idx as int))),
            linear_edges_in(indices@, triangle_idx as int, table.edges()),
            new_indices@ == linear_subdivision_indices(
                indices@,
                triangle_idx as int,
                table.edges(),
                base as int,
            ),
        decreases num_triangles - triangle_idx,
    {
        let base_idx = triangle_idx * 3;
        let v0 = indices[base_idx];
        let v1 = indices[base_idx + 1];
        let v2 = indices[base_idx + 2];
        let ghost e0 = table.edges();
        let (mid01, mid12, mid20) = request_three(
            &mut table,
            &mut sources,
            v0,
            v1,
            VertexSource::EdgeMidpoint(if v0 < v1 { v0 } else { v1 }, if v0 < v1 { v1 } else { v0 }),
            v1,
            v2,
            VertexSource::EdgeMidpoint(if v1 < v2 { v1 } else { v2 }, if v1 < v2 { v2 } else { v1 }),
            v2,
            v0,
            VertexSource::EdgeMidpoint(if v2 < v0 { v2 } else { v0 }, if v2 < v0 { v0 } else { v2 }),
            Ghost(linear_requests(indices@, triangle_idx as int)),
        );
        proof {
            assert(linear_requests(indices@, triangle_idx + 1) =~= linear_requests(
                indices@,
                triangle_idx as int,
            ) + seq![linear_request(v0, v1), linear_request(v1, v2), linear_request(v2, v0)]);
            assert(corner(indices@, triangle_idx as int, 0) == v0);
            assert(corner(indices@, triangle_idx as int, 1) == v1);
            assert(corner(indices@, triangle_idx as int, 2) == v2);
            lemma_linear_stable(indices@, triangle_idx as int, e0, table.edges(), base as int);
            let e3 = table.edges();
            assert forall|s: int| 0 <= s < triangle_idx + 1 implies {
                &&& e3.contains(edge_key(#[trigger] corner(indices@, s, 0), corner(indices@, s, 1)))
                &&& e3.contains(edge_key(corner(indices@, s, 1), corner(indices@, s, 2)))
                &&& e3.contains(edge_key(corner(indices@, s, 2), corner(indices@, s, 0)))
            } by {
                if s < triangle_idx {
                    assert(linear_edges_in(indices@, triangle_idx as int, e3));
                    assert(e3.contains(edge_key(corner(indices@, s, 0), corner(indices@, s, 1))));
                } else {
                    assert(corner(indices@, s, 0) == v0);
                    assert(corner(indices@, s, 1) == v1);
                    assert(corner(indices@, s, 2) == v2);
                }
            }
        }
        push_split_triangle(&mut new_indices, v0, v1, v2, mid01, mid12, mid20);
        triangle_idx = triangle_idx + 1;
    }
    (new_indices, table, sources)
}

/// A sample of quadratic triangle `t` at `(r / 4, s / 4)`.
pub open spec fn ts(t: int, r: u8, s: u8) -> VertexSource {
    VertexSource::TriangleSample { triangle: t as usize, r, s }
}

/// The twelve midpoint requests of quadratic triangle `t` with control
/// points `q`: the midpoints of its three edges, then the midpoints of the
/// six half edges and of the three inner edges, each with the parametric
/// coordinates at which the triangle's shape functions place it.
pub open spec fn quad_requests_of(q: Seq<u32>, t: int, e: Seq<(u32, u32)>, base: int) -> Seq<
    ((u32, u32), VertexSource),
> {
    let (c0, c1, c2) = (q[0], q[1], q[2]);
    let m01 = mid(e, base, c0, c1);
    let m12 = mid(e, base, c1, c2);
    let m20 = mid(e, base, c2, c0);
    seq![
        (edge_key(c0, c1), ts(t, 2, 0)),
        (edge_key(c1, c2), ts(t, 2, 2)),
        (edge_key(c2, c0), ts(t, 0, 2)),
        (edge_key(c0, m01), ts(t, 1, 0)),
        (edge_key(m01, c1), ts(t, 3, 0)),
        (edge_key(c1, m12), ts(t, 3, 1)),
        (edge_key(m12, c2), ts(t, 1, 3)),
        (edge_key(c2, m20), ts(t, 0, 3)),
        (edge_key(m20, c0), ts(t, 0, 1)),
        (edge_key(m01, m12), ts(t, 2, 1)),
        (edge_key(m12, m20), ts(t, 1, 2)),
        (edge_key(m20, m01), ts(t, 1, 1)),
    ]
}

/// The four linear triangles replacing quadratic triangle `q`.
pub open spec fn quad_indices_of(q: Seq<u32>, e: Seq<(u32, u32)>, base: int) -> Seq<u32> {
    let (c0, c1, c2) = (q[0], q[1], q[2]);
    split_triangle(c0, c1, c2, mid(e, base, c0, c1), mid(e, base, c1, c2), mid(e, base, c2, c0))
}

/// The control points of the four quadratic triangles replacing `q`.
pub open spec fn quad_triangles_of(q: Seq<u32>, e: Seq<(u32, u32)>, base: int) -> Seq<Seq<u32>> {
    let (c0, c1, c2) = (q[0], q[1], q[2]);
    let m01 = mid(e, base, c0, c1);
    let m12 = mid(e, base, c1, c2);
    let m20 = mid(e, base, c2, c0);
    seq![
        seq![c0, m01, m20, mid(e, base, c0, m01), mid(e, base, m20, m01), mid(e, base, m20, c0)],
        seq![m01, c1, m12, mid(e, base, m01, c1), mid(e, base, c1, m12), mid(e, base, m01, m12)],
        seq![m20, m12, c2, mid(e, base, m12, m20), mid(e, base, m12, c2), mid(e, base, c2, m20)],
        seq![m01, m12, m20, mid(e, base, m01, m12), mid(e, base, m12, m20), mid(e, base, m20, m01)],
    ]
}

/// Requests of quadratic triangles `0..t`.
pub open spec fn quad_requests(qts: Seq<Seq<u32>>, t: int, e: Seq<(u32, u32)>, base: int) -> Seq<
    ((u32, u32), VertexSource),
>
    decreases t,
{
    if t <= 0 {
        seq![]
    } else {
        quad_requests(qts, t - 1, e, base) + quad_requests_of(qts[t - 1], t - 1, e, base)
    }
}

/// Linear triangles replacing quadratic triangles `0..t`.
pub open spec fn quad_indices(qts: Seq<Seq<u32>>, t: int, e: Seq<(u32, u32)>, base: int) -> Seq<
    u32,
>
    decreases t,
{
    if t <= 0 {
        seq![]
    } else {
        quad_indices(qts, t - 1, e, base) + quad_indices_of(qts[t - 1], e, base)
    }
}

/// Quadratic triangles replacing quadratic triangles `0..t`.
pub open spec fn quad_triangles(qts: Seq<Seq<u32>>, t: int, e: Seq<(u32, u32)>, base: int) -> Seq<
    Seq<u32>,
>
    decreases t,
{
    if t <= 0 {
        seq![]
    } else {
        quad_triangles(qts, t - 1, e, base) + quad_triangles_of(qts[t - 1], e, base)
    }
}

/// All requests of quadratic triangle `q` are in the table.
pub open spec fn quad_keys_in(q: Seq<u32>, t: int, e: Seq<(u32, u32)>, base: int) -> bool {
    forall|j: int| 0 <= j < 12 ==> e.contains(#[trigger] quad_requests_of(q, t, e, base)[j].0)
}

/// All requests of quadratic triangles `0..t` are in the table.
pub open spec fn quad_all_keys_in(qts: Seq<Seq<u32>>, t: int, e: Seq<(u32, u32)>, base: int) -> bool {
    forall|s: int| 0 <= s < t ==> quad_keys_in(#[trigger] qts[s], s, e, base)
}

proof fn lemma_quad_stable_one(q: Seq<u32>, t: int, e1: Seq<(u32, u32)>, e2: Seq<(u32, u32)>, base: int)
    requires
        table_prefix(e1, e2),
        quad_keys_in(q, t, e1, base),
    ensures
        quad_requests_of(q, t, e1, base) == quad_requests_of(q, t, e2, base),
        quad_indices_of(q, e1, base) == quad_indices_of(q, e2, base),
        quad_triangles_of(q, e1, base) == quad_triangles_of(q, e2, base),
        quad_keys_in(q, t, e2, base),
{
    let r = quad_requests_of(q, t, e1, base);
    assert(e1.contains(r[0].0));
    assert(e1.contains(r[1].0));
    assert(e1.contains(r[2].0));
    let (c0, c1, c2) = (q[0], q[1], q[2]);
    lemma_mid_extend(e1, e2, base, c0, c1);
    lemma_mid_extend(e1, e2, base, c1, c2);
    lemma_mid_extend(e1, e2, base, c2, c0);
    assert(quad_requests_of(q, t, e1, base) =~= quad_requests_of(q, t, e2, base));
    let m01 = mid(e1, base, c0, c1);
    let m12 = mid(e1, base, c1, c2);
    let m20 = mid(e1, base, c2, c0);
    assert(e1.contains(r[3].0));
    assert(e1.contains(r[4].0));
    assert(e1.contains(r[5].0));
    assert(e1.contains(r[6].0));
    assert(e1.contains(r[7].0));
    assert(e1.contains(r[8].0));
    assert(e1.contains(r[9].0));
    assert(e1.contains(r[10].0));
    assert(e1.contains(r[11].0));
    lemma_mid_extend(e1, e2, base, c0, m01);
    lemma_mid_extend(e1, e2, base, m01, c1);
    lemma_mid_extend(e1, e2, base, c1, m12);
    lemma_mid_extend(e1, e2, base, m12, c2);
    lemma_mid_extend(e1, e2, base, c2, m20);
    lemma_mid_extend(e1, e2, base, m20, c0);
    lemma_mid_extend(e1, e2, base, m01, m12);
    lemma_mid_extend(e1, e2, base, m12, m20);
    lemma_mid_extend(e1, e2, base, m20, m01);
    assert(quad_triangles_of(q, e1, base) =~= quad_triangles_of(q, e2, base));
    assert(quad_indices_of(q, e1, base) =~= quad_indices_of(q, e2, base));
    assert forall|j: int| 0 <= j < 12 implies e2.contains(
        #[trigger] quad_requests_of(q, t, e2, base)[j].0,
    ) by {
        let k = r[j].0;
        assert(e1.contains(k));
        let i = choose|i: int| 0 <= i < e1.len() && e1[i] == k;
        assert(e2[i] == e1[i]);
    }
}

proof fn lemma_quad_stable(qts: Seq<Seq<u32>>, t: int, e1: Seq<(u32, u32)>, e2: Seq<(u32, u32)>, base: int)
    requires
        table_prefix(e1, e2),
        quad_all_keys_in(qts, t, e1, base),
    ensures
        quad_requests(qts, t, e1, base) == quad_requests(qts, t, e2, base),
        quad_indices(qts, t, e1, base) == quad_indices(qts, t, e2, base),
        quad_triangles(qts, t, e1, base) == quad_triangles(qts, t, e2, base),
        quad_all_keys_in(qts, t, e2, base),
    decreases t,
{
    if t > 0 {
        lemma_quad_stable(qts, t - 1, e1, e2, base);
        assert(quad_keys_in(qts[t - 1], t - 1, e1, base));
        lemma_quad_stable_one(qts[t - 1], t - 1, e1, e2, base);
    }
    assert forall|s: int| 0 <= s < t implies quad_keys_in(#[trigger] qts[s], s, e2, base) by {
        assert(quad_keys_in(qts[s], s, e1, base));
        lemma_quad_stable_one(qts[s], s, e1, e2, base);
    }
}

/// The control point lists of quadratic triangles.
pub open spec fn qt_view(qts: Seq<QuadraticTriangle>) -> Seq<Seq<u32>> {
    qts.map_values(|q: QuadraticTriangle| q.vertices@)
}

/// Appends a quadratic triangle.
fn push_quadratic_triangle(out: &mut Vec<QuadraticTriangle>, vertices: [u32; 6])
    ensures
        qt_view(final(out)@) == qt_view(old(out)@).push(vertices@),
{
    out.push(QuadraticTriangle::new(vertices));
    assert(qt_view(out@) =~= qt_view(old(out)@).push(vertices@));
}

/// Splits quadratic triangle `t` into four, requesting its twelve midpoints.
#[verifier::spinoff_prover]
#[verifier::rlimit(60)]
fn subdivide_quadratic_triangle(
    table: &mut EdgeMidpoints,
    sources: &mut Vec<VertexSource>,
    new_indices: &mut Vec<u32>,
    new_triangles: &mut Vec<QuadraticTriangle>,
    q: &QuadraticTriangle,
    t: usize,
    Ghost(reqs): Ghost<Seq<((u32, u32), VertexSource)>>,
)
    requires
        old(table).wf(),
        old(table).base() + old(table).edges().len() + 12 <= u32::MAX,
        old(table).edges() == keys_of(dedup_keys(reqs)),
        old(sources)@ == payloads_of(dedup_keys(reqs)),
    ensures
        ({
            let e = final(table).edges();
            let base = final(table).base();
            let r = reqs + quad_requests_of(q.vertices@, t as int, e, base);
            &&& final(table).wf()
            &&& base == old(table).base()
            &&& e == keys_of(dedup_keys(r))
            &&& final(sources)@ == payloads_of(dedup_keys(r))
            &&& e.len() <= old(table).edges().len() + 12
            &&& table_prefix(old(table).edges(), e)
            &&& quad_keys_in(q.vertices@, t as int, e, base)
            &&& final(new_indices)@ == old(new_indices)@ + quad_indices_of(q.vertices@, e, base)
            &&& qt_view(final(new_triangles)@) == qt_view(old(new_triangles)@) + quad_triangles_of(
                q.vertices@,
                e,
                base,
            )
        }),
{
    let ghost base = table.base();
    let ghost e0 = table.edges();
    let c0 = q.vertices[0];
    let c1 = q.vertices[1];
    let c2 = q.vertices[2];
    let (m01, m12, m20) = request_three(
        table,
        sources,
        c0,
        c1,
        VertexSource::TriangleSample { triangle: t, r: 2, s: 0 },
        c1,
        c2,
        VertexSource::TriangleSample { triangle: t, r: 2, s: 2 },
        c2,
        c0,
        VertexSource::TriangleSample { triangle: t, r: 0, s: 2 },
        Ghost(reqs),
    );
    let ghost e1 = table.edges();
    let ghost g1 = seq![
        (edge_key(c0, c1), ts(t as int, 2, 0)),
        (edge_key(c1, c2), ts(t as int, 2, 2)),
        (edge_key(c2, c0), ts(t as int, 0, 2)),
    ];
    let (h01_0, h01_1, h12_1) = request_three(
        table,
        sources,
        c0,
        m01,
        VertexSource::TriangleSample { triangle: t, r: 1, s: 0 },
        m01,
        c1,
        VertexSource::TriangleSample { triangle: t, r: 3, s: 0 },
        c1,
        m12,
        VertexSource::TriangleSample { triangle: t, r: 3, s: 1 },
        Ghost(reqs + g1),
    );
    let ghost e2 = table.edges();
    let ghost g2 = seq![
        (edge_key(c0, m01), ts(t as int, 1, 0)),
        (edge_key(m01, c1), ts(t as int, 3, 0)),
        (edge_key(c1, m12), ts(t as int, 3, 1)),
    ];
    let (h12_2, h20_2, h20_0) = request_three(
        table,
        sources,
        m12,
        c2,
        VertexSource::TriangleSample { triangle: t, r: 1, s: 3 },
        c2,
        m20,
        VertexSource::TriangleSample { triangle: t, r: 0, s: 3 },
        m20,
        c0,
        VertexSource::TriangleSample { triangle: t, r: 0, s: 1 },
        Ghost(reqs + g1 + g2),
    );
    let ghost e3 = table.edges();
    let ghost g3 = seq![
        (edge_key(m12, c2), ts(t as int, 1, 3)),
        (edge_key(c2, m20), ts(t as int, 0, 3)),
        (edge_key(m20, c0), ts(t as int, 0, 1)),
    ];
    let (i01_12, i12_20, i20_01) = request_three(
        table,
        sources,
        m01,
        m12,
        VertexSource::TriangleSample { triangle: t, r: 2, s: 1 },
        m12,
        m20,
        VertexSource::TriangleSample { triangle: t, r: 1, s: 2 },
        m20,
        m01,
        VertexSource::TriangleSample { triangle: t, r: 1, s: 1 },
        Ghost(reqs + g1 + g2 + g3),
    );
    let ghost e4 = table.edges();
    let ghost g4 = seq![
        (edge_key(m01, m12), ts(t as int, 2, 1)),
        (edge_key(m12, m20), ts(t as int, 1, 2)),
        (edge_key(m20, m01), ts(t as int, 1, 1)),
    ];
    proof {
        lemma_table_prefix_trans(e0, e1, e2);
        lemma_table_prefix_trans(e0, e2, e3);
        lemma_table_prefix_trans(e0, e3, e4);
        lemma_table_prefix_trans(e1, e2, e3);
        lemma_table_prefix_trans(e1, e3, e4);
        lemma_table_prefix_trans(e2, e3, e4);
        lemma_mid_extend(e1, e4, base, c0, c1);
        lemma_mid_extend(e1, e4, base, c1, c2);
        lemma_mid_extend(e1, e4, base, c2, c0);
        lemma_mid_extend(e2, e4, base, c0, m01);
        lemma_mid_extend(e2, e4, base, m01, c1);
        lemma_mid_extend(e2, e4, base, c1, m12);
        lemma_mid_extend(e3, e4, base, m12, c2);
        lemma_mid_extend(e3, e4, base, c2, m20);
        lemma_mid_extend(e3, e4, base, m20, c0);
        assert(q.vertices@[0] == c0 && q.vertices@[1] == c1 && q.vertices@[2] == c2);
        assert(quad_requests_of(q.vertices@, t as int, e4, base) =~= g1 + g2 + g3 + g4);
        assert(reqs + g1 + g2 + g3 + g4 =~= reqs + quad_requests_of(q.vertices@, t as int, e4, base));
        assert forall|j: int| 0 <= j < 12 implies e4.contains(
            #[trigger] quad_requests_of(q.vertices@, t as int, e4, base)[j].0,
        ) by {
            let r = quad_requests_of(q.vertices@, t as int, e4, base);
            if j == 3 || j == 4 || j == 5 {
                lemma_mid_extend(e2, e4, base, r[j].0.0, r[j].0.1);
                assert(edge_key(r[j].0.0, r[j].0.1) == r[j].0);
            } else if j == 6 || j == 7 || j == 8 {
                lemma_mid_extend(e3, e4, base, r[j].0.0, r[j].0.1);
                assert(edge_key(r[j].0.0, r[j].0.1) == r[j].0);
            } else if j < 3 {
                lemma_mid_extend(e1, e4, base, r[j].0.0, r[j].0.1);
                assert(edge_key(r[j].0.0, r[j].0.1) == r[j].0);
            }
        }
    }
    push_split_triangle(new_indices, c0, c1, c2, m01, m12, m20);
    let ghost before = qt_view(new_triangles@);
    push_quadratic_triangle(new_triangles, [c0, m01, m20, h01_0, i20_01, h20_0]);
    push_quadratic_triangle(new_triangles, [m01, c1, m12, h01_1, h12_1, i01_12]);
    push_quadratic_triangle(new_triangles, [m20, m12, c2, i12_20, h12_2, h20_2]);
    push_quadratic_triangle(new_triangles, [m01, m12, m20, i01_12, i12_20, i20_01]);
    proof {
        assert(qt_view(new_triangles@) =~= before + quad_triangles_of(q.vertices@, e4, base));
    }
}

/// Four-way subdivision of quadratic triangles with their shape functions.
///
/// Returns the linear triangles for rendering, the midpoint table (the
/// midpoint of `edges[i]` is vertex `base + i`), where each new vertex lies,
/// and the four quadratic triangles replacing each input triangle. The midpoint of an edge shared by several triangles is
/// placed by the first triangle that meets it.
fn quadratic_4_subdivision(quadratic_triangles: &Vec<QuadraticTriangle>, base: u32) -> (res: (
    Vec<u32>,
    EdgeMidpoints,
    Vec<VertexSource>,
    Vec<QuadraticTriangle>,
))
    requires
        base + 12 * quadratic_triangles@.len() <= u32::MAX,
    ensures
        ({
            let qv = qt_view(quadratic_triangles@);
            let n = qv.len() as int;
            let e = res.1.edges();
            let r = quad_requests(qv, n, e, base as int);
            &&& res.1.wf()
            &&& res.1.base() == base
            &&& e.len() <= 12 * quadratic_triangles@.len()
            &&& e == keys_of(dedup_keys(r))
            &&& res.2@ == payloads_of(dedup_keys(r))
            &&& res.0@ == quad_indices(qv, n, e, base as int)
            &&& qt_view(res.3@) == quad_triangles(qv, n, e, base as int)
        }),
{
    let ghost qv = qt_view(quadratic_triangles@);
    let mut new_indices: Vec<u32> = Vec::new();
    let mut new_triangles: Vec<QuadraticTriangle> = Vec::new();
    let mut table = EdgeMidpoints::new(base);
    let mut sources: Vec<VertexSource> = Vec::new();
    let mut t: usize = 0;
    assert(qt_view(new_triangles@) =~= Seq::<Seq<u32>>::empty());
    while t < quadratic_triangles.len()
        invariant
            qv == qt_view(quadratic_triangles@),
            t <= quadratic_triangles@.len(),
            base + 12 * quadratic_triangles@.len() <= u32::MAX,
            table.wf(),
            table.base() == base,
            table.edges().len() <= 12 * t,
            table.edges() == keys_of(dedup_keys(quad_requests(qv, t as int, table.edges(), base as int))),
            sources@ == payloads_of(dedup_keys(quad_requests(qv, t as int, table.edges(), base as int))),
            quad_all_keys_in(qv, t as int, table.edges(), base as int),
            new_indices@ == quad_indices(qv, t as int, table.edges(), base as int),
            qt_view(new_triangles@) == quad_triangles(qv, t as int, table.edges(), base as int),
        decreases quadratic_triangles@.len() - t,
    {
        let ghost e0 = table.edges();
        let q = &quadratic_triangles[t];
        subdivide_quadratic_triangle(
            &mut table,
            &mut sources,
            &mut new_indices,
            &mut new_triangles,
            q,
            t,
            Ghost(quad_requests(qv, t as int, e0, base as int)),
        );
        proof {
            let e1 = table.edges();
            assert(qv[t as int] == q.vertices@);
            lemma_quad_stable(qv, t as int, e0, e1, base as int);
            assert(quad_requests(qv, t + 1, e1, base as int) =~= quad_requests(qv, t as int, e1, base as int)
                + quad_requests_of(q.vertices@, t as int, e1, base as int));
            assert forall|s: int| 0 <= s < t + 1 implies quad_keys_in(#[trigger] qv[s], s, e1, base as int) by {
                if s < t {
                    assert(quad_all_keys_in(qv, t as int, e1, base as int));
                }
            }
        }
        t = t + 1;
    }
    (new_indices, table, sources, new_triangles)
}

/// The quadratic edges replacing quadratic edges `qes` (control points
/// `[p0, p1, p2]`, `p2` the midpoint): edge `e` becomes `[p0, p2, base + 2e]`
/// and `[p2, p1, base + 2e + 1]`, the new vertices lying at r = 1/4 and 3/4.
pub open spec fn edge_split(qes: Seq<Seq<u32>>, base: int) -> Seq<Seq<u32>> {
    Seq::new(
        2 * qes.len(),
        |k: int|
            if k % 2 == 0 {
                seq![qes[k / 2][0], qes[k / 2][2], (base + k) as u32]
            } else {
                seq![qes[k / 2][2], qes[k / 2][1], (base + k) as u32]
            },
    )
}

/// Where the vertices created by [`edge_split`] lie.
pub open spec fn edge_split_sources(n: int) -> Seq<VertexSource> {
    Seq::new(
        (2 * n) as nat,
        |k: int|
            VertexSource::EdgeSample { edge: (k / 2) as usize, r: if k % 2 == 0 { 1u8 } else { 3u8 } },
    )
}

/// The control point lists of quadratic edges.
pub open spec fn qe_view(qes: Seq<QuadraticEdge>) -> Seq<Seq<u32>> {
    qes.map_values(|q: QuadraticEdge| q.vertices@)
}

/// Splits every quadratic edge in two at its midpoint, creating the vertices
/// at r = 1/4 and r = 3/4 as `base, base + 1, ...`.
fn quadratic_edge_2_subdivision(quadratic_edges: &Vec<QuadraticEdge>, base: u32) -> (res: (
    Vec<QuadraticEdge>,
    Vec<VertexSource>,
))
    requires
        base + 2 * quadratic_edges@.len() <= u32::MAX,
    ensures
        qe_view(res.0@) == edge_split(qe_view(quadratic_edges@), base as int),
        res.1@ == edge_split_sources(quadratic_edges@.len() as int),
{
    let mut new_edges: Vec<QuadraticEdge> = Vec::new();
    let mut sources: Vec<VertexSource> = Vec::new();
    let mut e: usize = 0;
    let ghost qv = qe_view(quadratic_edges@);
    while e < quadratic_edges.len()
        invariant
            qv == qe_view(quadratic_edges@),
            e <= quadratic_edges@.len(),
            base + 2 * quadratic_edges@.len() <= u32::MAX,
            qe_view(new_edges@) =~= edge_split(qv, base as int).subrange(0, 2 * e),
            sources@ =~= edge_split_sources(quadratic_edges@.len() as int).subrange(0, 2 * e),
        decreases quadratic_edges@.len() - e,
    {
        let quadratic_edge = &quadratic_edges[e];
        let endpoints = quadratic_edge.endpoints();
        let midpoint_idx = quadratic_edge.midpoint();
        let left_mid_idx = base + (2 * e) as u32;
        let right_mid_idx = left_mid_idx + 1;
        sources.push(VertexSource::EdgeSample { edge: e, r: 1 });
        sources.push(VertexSource::EdgeSample { edge: e, r: 3 });
        let left_edge = QuadraticEdge::new([endpoints[0], midpoint_idx, left_mid_idx]);
        let right_edge = QuadraticEdge::new([midpoint_idx, endpoints[1], right_mid_idx]);
        let ghost before = new_edges@;
        new_edges.push(left_edge);
        new_edges.push(right_edge);
        proof {
            assert(qv[e as int] == quadratic_edge.vertices@);
            assert(qe_view(new_edges@) =~= qe_view(before).push(left_edge.vertices@).push(
                right_edge.vertices@,
            ));
            assert(left_edge.vertices@ =~= edge_split(qv, base as int)[2 * e]);
            assert(right_edge.vertices@ =~= edge_split(qv, base as int)[2 * e + 1]);
        }
        e = e + 1;
    }
    (new_edges, sources)
}

/// Each entry of the mapping repeated four times, one for each triangle of
/// the split.
pub fn generate_subdivided_triangle_mapping(original_mapping: &[usize]) -> (mapping: Vec<usize>)
    ensures
        mapping@ == Seq::new(4 * original_mapping@.len(), |k: int| original_mapping@[k / 4]),
{
    let mut new_mapping: Vec<usize> = Vec::new();
    let mut i: usize = 0;
    while i < original_mapping.len()
        invariant
            i <= original_mapping@.len(),
            new_mapping@ =~= Seq::new(4 * original_mapping@.len(), |k: int| original_mapping@[k / 4]).subrange(0, 4 * i),
        decreases original_mapping@.len() - i,
    {
        let cell_idx = original_mapping[i];
        new_mapping.push(cell_idx);
        new_mapping.push(cell_idx);
        new_mapping.push(cell_idx);
        new_mapping.push(cell_idx);
        i = i + 1;
    }
    new_mapping
}

/// Triangle `t` of the original mesh, repeated four times.
pub fn generate_default_triangle_mapping(num_original_triangles: usize) -> (mapping: Vec<usize>)
    ensures
        mapping@ == Seq::new(4 * num_original_triangles as nat, |k: int| (k / 4) as usize),
{
    let mut mapping: Vec<usize> = Vec::new();
    let mut t: usize = 0;
    while t < num_original_triangles
        invariant
            t <= num_original_triangles,
            mapping@ =~= Seq::new(4 * num_original_triangles as nat, |k: int| (k / 4) as usize).subrange(0, 4 * t),
        decreases num_original_triangles - t,
    {
        mapping.push(t);
        mapping.push(t);
        mapping.push(t);
        mapping.push(t);
        t = t + 1;
    }
    mapping
}

/// Each value repeated `expansion_factor` times, for cell attributes after
/// every cell has been split.
pub fn expand_cell_attribute_for_subdivision<T: Clone>(
    data: &Vec<T>,
    expansion_factor: usize,
) -> (expanded: Vec<T>)
    requires
        data@.len() * expansion_factor <= usize::MAX,
    ensures
        expanded@.len() == data@.len() * expansion_factor,
        forall|k: int|
            0 <= k < expanded@.len() ==> cloned::<T>(
                data@[k / expansion_factor as int],
                #[trigger] expanded@[k],
            ),
{
    let mut new_data: Vec<T> = Vec::new();
    let mut i: usize = 0;
    while i < data.len()
        invariant
            i <= data@.len(),
            data@.len() * expansion_factor <= usize::MAX,
            new_data@.len() == i * expansion_factor,
            forall|k: int|
                0 <= k < new_data@.len() ==> cloned::<T>(
                    data@[k / expansion_factor as int],
                    #[trigger] new_data@[k],
                ),
        decreases data@.len() - i,
    {
        let mut j: usize = 0;
        proof {
            assert(i * expansion_factor + expansion_factor <= data@.len() * expansion_factor) by (nonlinear_arith)
                requires
                    i < data@.len(),
            ;
        }
        while j < expansion_factor
            invariant
                i < data@.len(),
                j <= expansion_factor,
                i * expansion_factor + expansion_factor <= usize::MAX,
                new_data@.len() == i * expansion_factor + j,
                forall|k: int|
                    0 <= k < new_data@.len() ==> cloned::<T>(
                        data@[k / expansion_factor as int],
                        #[trigger] new_data@[k],
                    ),
            decreases expansion_factor - j,
        {
            let value = data[i].clone();
            proof {
                let k = i * expansion_factor + j;
                assert(k / expansion_factor as int == i) by (nonlinear_arith)
                    requires
                        k == i * expansion_factor + j,
                        0 <= j < expansion_factor,
                ;
            }
            new_data.push(value);
            j = j + 1;
        }
        i = i + 1;
        proof {
            assert(new_data@.len() == i * expansion_factor) by (nonlinear_arith)
                requires
                    new_data@.len() == (i - 1) * expansion_factor + expansion_factor,
            ;
        }
    }
    new_data
}

/// The outcome of a refinement: the new topology, where each created vertex
/// lies (vertex `old count + i` lies at `new_vertices[i]`), and the midpoint
/// table used for point attributes (vertex `midpoint_base + i` is the
/// midpoint of `midpoint_edges[i]`).
#[derive(Debug, Clone)]
pub struct RefinedMesh {
    pub topology: MeshTopology,
    pub new_vertices: Vec<VertexSource>,
    pub midpoint_base: u32,
    pub midpoint_edges: Vec<(u32, u32)>,
}

/// Number of quadratic triangles of a topology.
pub open spec fn qt_count(topo: MeshTopology) -> int {
    match topo.quadratic_triangles {
        Some(v) => v@.len() as int,
        None => 0,
    }
}

/// Number of quadratic edges of a topology.
pub open spec fn qe_count(topo: MeshTopology) -> int {
    match topo.quadratic_edges {
        Some(v) => v@.len() as int,
        None => 0,
    }
}

/// All vertex indices created by a subdivision fit in 32 bits.
pub open spec fn subdivision_room(topo: MeshTopology) -> bool {
    topo.num_vertices + topo.indices@.len() + 12 * qt_count(topo) + 2 * qe_count(topo) <= u32::MAX
}

/// Quadratic triangles, present exactly when there is at least one.
pub open spec fn qts_present(opt: Option<Vec<QuadraticTriangle>>, s: Seq<Seq<u32>>) -> bool {
    if s.len() > 0 {
        opt matches Some(v) && qt_view(v@) == s
    } else {
        opt is None
    }
}

/// Quadratic edges, present exactly when there is at least one.
pub open spec fn qes_present(opt: Option<Vec<QuadraticEdge>>, s: Seq<Seq<u32>>) -> bool {
    if s.len() > 0 {
        opt matches Some(v) && qe_view(v@) == s
    } else {
        opt is None
    }
}

/// What a subdivision of `topo` gives.
///
/// With quadratic triangles, each of them is split with its shape functions
/// (the linear triangles are replaced by their splits) and the quadratic
/// edges, if any, are split after them. With quadratic edges only, these are
/// split first and then every linear triangle in four. Otherwise every linear
/// triangle is split in four. Every triangle's cell is repeated four times.
pub open spec fn spec_subdivided(topo: MeshTopology, r: RefinedMesh) -> bool {
    let n = topo.num_vertices as int;
    let idx = topo.indices@;
    let t = (idx.len() / 3) as int;
    let e = r.midpoint_edges@;
    let out = r.topology;
    &&& out.num_vertices == n + r.new_vertices@.len()
    &&& out.triangle_to_cell_mapping matches Some(m) && m@ == match topo.triangle_to_cell_mapping {
        Some(orig) => Seq::new(4 * orig@.len(), |k: int| orig@[k / 4]),
        None => Seq::new(4 * t as nat, |k: int| (k / 4) as usize),
    }
    &&& match (topo.quadratic_triangles, topo.quadratic_edges) {
        (Some(qts), qes_opt) => {
            let qv = qt_view(qts@);
            let nq = qv.len() as int;
            let reqs = quad_requests(qv, nq, e, n);
            &&& r.midpoint_base == n
            &&& e == keys_of(dedup_keys(reqs))
            &&& out.indices@ == quad_indices(qv, nq, e, n)
            &&& qts_present(out.quadratic_triangles, quad_triangles(qv, nq, e, n))
            &&& match qes_opt {
                Some(qes) => {
                    &&& r.new_vertices@ == payloads_of(dedup_keys(reqs)) + edge_split_sources(
                        qes@.len() as int,
                    )
                    &&& qes_present(
                        out.quadratic_edges,
                        edge_split(qe_view(qes@), n + e.len()),
                    )
                },
                None => {
                    &&& r.new_vertices@ == payloads_of(dedup_keys(reqs))
                    &&& out.quadratic_edges is None
                },
            }
        },
        (None, Some(qes)) => {
            let base = n + 2 * qes@.len();
            let reqs = linear_requests(idx, t);
            &&& r.midpoint_base == base
            &&& e == keys_of(dedup_keys(reqs))
            &&& out.indices@ == linear_subdivision_indices(idx, t, e, base)
            &&& r.new_vertices@ == edge_split_sources(qes@.len() as int) + payloads_of(
                dedup_keys(reqs),
            )
            &&& out.quadratic_triangles is None
            &&& qes_present(out.quadratic_edges, edge_split(qe_view(qes@), n))
        },
        (None, None) => {
            let reqs = linear_requests(idx, t);
            &&& r.midpoint_base == n
            &&& e == keys_of(dedup_keys(reqs))
            &&& out.indices@ == linear_subdivision_indices(idx, t, e, n)
            &&& r.new_vertices@ == payloads_of(dedup_keys(reqs))
            &&& out.quadratic_triangles is None
            &&& out.quadratic_edges is None
        },
    }
}

/// Subdivides a mesh: every triangle becomes four.
///
/// Fails with `InvalidFormat("Mesh must be triangular")` exactly when the
/// index count is not a multiple of three.
pub fn subdivide_mesh(topology: &MeshTopology) -> (res: Result<RefinedMesh, VtkError>)
    requires
        subdivision_room(*topology),
    ensures
        match res {
            Ok(r) => topology.indices@.len() % 3 == 0 && spec_subdivided(*topology, r),
            Err(e) => topology.indices@.len() % 3 != 0 && e == VtkError::InvalidFormat(
                "Mesh must be triangular",
            ),
        },
{
    if topology.indices.len() % 3 != 0 {
        return Err(VtkError::InvalidFormat("Mesh must be triangular"));
    }
    let num_triangles = topology.indices.len() / 3;
    let n = topology.num_vertices as u32;
    let (new_indices, midpoint_base, midpoint_edges, new_vertices, new_qts, new_qes) = match (
        &topology.quadratic_triangles,
        &topology.quadratic_edges,
    ) {
        (Some(quadratic_triangles), quadratic_edges_opt) => {
            let (indices, table, sources, quad_triangles) = quadratic_4_subdivision(
                quadratic_triangles,
                n,
            );
            let edges = table.into_edges();
            let mut all_sources = sources;
            let quad_edges = match quadratic_edges_opt {
                Some(quadratic_edges) => {
                    let (subdivided_edges, mut edge_sources) = quadratic_edge_2_subdivision(
                        quadratic_edges,
                        n + edges.len() as u32,
                    );
                    all_sources.append(&mut edge_sources);
                    subdivided_edges
                },
                None => Vec::new(),
            };
            (indices, n, edges, all_sources, quad_triangles, quad_edges)
        },
        (None, Some(quadratic_edges)) => {
            let (subdivided_edges, edge_sources) = quadratic_edge_2_subdivision(
                quadratic_edges,
                n,
            );
            let base = n + 2 * quadratic_edges.len() as u32;
            let (indices, table, mut sources) = smooth_4_subdivision(&topology.indices, base);
            let edges = table.into_edges();
            let mut all_sources = edge_sources;
            all_sources.append(&mut sources);
            (indices, base, edges, all_sources, Vec::new(), subdivided_edges)
        },
        (None, None) => {
            let (indices, table, sources) = smooth_4_subdivision(&topology.indices, n);
            let edges = table.into_edges();
            (indices, n, edges, sources, Vec::new(), Vec::new())
        },
    };
    let new_mapping = match &topology.triangle_to_cell_mapping {
        Some(original_mapping) => generate_subdivided_triangle_mapping(original_mapping.as_slice()),
        None => generate_default_triangle_mapping(num_triangles),
    };
    let mut new_topology = MeshTopology::new(
        topology.num_vertices + new_vertices.len(),
        new_indices,
    );
    new_topology = new_topology.add_triangle_to_cell_mapping(new_mapping);
    if new_qts.len() > 0 {
        new_topology = new_topology.add_quadratic_triangles(new_qts);
    }
    if new_qes.len() > 0 {
        new_topology = new_topology.add_quadratic_edges(new_qes);
    }
    let result = RefinedMesh {
        topology: new_topology,
        new_vertices,
        midpoint_base,
        midpoint_edges,
    };
    Ok(result)
}

proof fn lemma_quad_requests_len(qts: Seq<Seq<u32>>, t: int, e: Seq<(u32, u32)>, base: int)
    requires
        t >= 0,
    ensures
        quad_requests(qts, t, e, base).len() == 12 * t,
    decreases t,
{
    if t > 0 {
        lemma_quad_requests_len(qts, t - 1, e, base);
        assert(quad_requests_of(qts[t - 1], t - 1, e, base).len() == 12);
    }
}

/// Splitting quadratic edges: quadratic edge `e` with control points
/// `[p0, p1, p2]` (`p2` its midpoint) becomes the two edges `[p0, p2, x]`
/// and `[p2, p1, y]`, where `x` and `y` are new vertices lying on edge `e`
/// at r = 1/4 and r = 3/4. Every sub-edge gets a new vertex of its own: no
/// two sub-edges share their third control point, and none of them is an
/// existing vertex.
pub proof fn law_split_edges_get_their_own_vertices(topo: MeshTopology, r: RefinedMesh)
    requires
        subdivision_room(topo),
        spec_subdivided(topo, r),
        topo.quadratic_edges matches Some(qes) && qes@.len() > 0,
    ensures
        ({
            let qes = topo.quadratic_edges.unwrap()@;
            let n = topo.num_vertices as int;
            let out = r.topology.quadratic_edges.unwrap()@;
            &&& r.topology.quadratic_edges is Some
            &&& out.len() == 2 * qes.len()
            &&& forall|e: int|
                #![trigger qes[e]]
                0 <= e < qes.len() ==> {
                    &&& out[2 * e].vertices@[0] == qes[e].vertices@[0]
                    &&& out[2 * e].vertices@[1] == qes[e].vertices@[2]
                    &&& out[2 * e + 1].vertices@[0] == qes[e].vertices@[2]
                    &&& out[2 * e + 1].vertices@[1] == qes[e].vertices@[1]
                }
            &&& forall|k: int|
                #![trigger out[k]]
                0 <= k < out.len() ==> {
                    &&& n <= out[k].vertices@[2] < r.topology.num_vertices
                    &&& r.new_vertices@[out[k].vertices@[2] - n] == VertexSource::EdgeSample {
                        edge: (k / 2) as usize,
                        r: if k % 2 == 0 { 1u8 } else { 3u8 },
                    }
                }
            &&& forall|k1: int, k2: int|
                0 <= k1 < out.len() && 0 <= k2 < out.len() && k1 != k2 ==> #[trigger] out[k1].vertices@[2]
                    != #[trigger] out[k2].vertices@[2]
        }),
{
    let qes_v = topo.quadratic_edges.unwrap();
    let qes = qes_v@;
    let qv = qe_view(qes);
    let n = topo.num_vertices as int;
    let nqe = qes.len() as int;
    let e = r.midpoint_edges@;
    let out_v = r.topology.quadratic_edges.unwrap();
    let out = out_v@;
    // The first new vertex of the split edges, and where their sources start.
    let (base, offset) = match topo.quadratic_triangles {
        Some(qts) => {
            let qtv = qt_view(qts@);
            let nq = qtv.len() as int;
            let reqs = quad_requests(qtv, nq, e, n);
            lemma_quad_requests_len(qtv, nq, e, n);
            lemma_dedup_keys(reqs);
            (n + e.len(), e.len() as int)
        },
        None => (n, 0int),
    };
    assert(qe_view(out) == edge_split(qv, base));
    assert(base + 2 * nqe <= u32::MAX);
    assert(base - n == offset);
    assert(r.new_vertices@.len() >= offset + 2 * nqe);
    assert forall|k: int| 0 <= k < 2 * nqe implies r.new_vertices@[offset + k] == edge_split_sources(
        nqe,
    )[k] by {}
    assert forall|k: int| 0 <= k < out.len() implies #[trigger] out[k].vertices@ == edge_split(qv, base)[k] by {
        assert(qe_view(out)[k] == out[k].vertices@);
    }
    assert forall|ei: int| 0 <= ei < nqe implies #[trigger] qv[ei] == qes[ei].vertices@ by {
    }
}

} // verus!
