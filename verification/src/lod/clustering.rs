//! Triangle list of a mesh simplified by vertex clustering: every vertex is
//! replaced by the representative of its grid cell, and the triangles are
//! rebuilt without degenerate, too small or repeated ones.
//!
//! Choosing the cells and representatives and measuring triangle areas is
//! floating-point work done by the caller.
use std::collections::HashSet;
use vstd::prelude::*;

verus! {

broadcast use vstd::std_specs::hash::group_hash_axioms;

/// The three values in increasing order.
pub open spec fn sort3(a: usize, b: usize, c: usize) -> (usize, usize, usize) {
    if a <= b {
        if b <= c {
            (a, b, c)
        } else if a <= c {
            (a, c, b)
        } else {
            (c, a, b)
        }
    } else {
        if a <= c {
            (b, a, c)
        } else if b <= c {
            (b, c, a)
        } else {
            (c, b, a)
        }
    }
}

/// Result of rebuilding the first `t` triangles: the triangle list so far,
/// the corner sets already emitted, and whether the target was reached.
///
/// Triangle `s` has corners `map[idx[3s]], map[idx[3s+1]], map[idx[3s+2]]`.
/// It is dropped when two corners coincide, when it is too small
/// (`!large_enough[s]`) or when a triangle with the same corners was already
/// emitted; after each triangle that is not dropped for the first two
/// reasons, rebuilding stops once `target` triangles are in the list.
pub open spec fn clustered(
    idx: Seq<u32>,
    map: Seq<usize>,
    large_enough: Seq<bool>,
    target: int,
    t: nat,
) -> (Seq<u32>, Set<(usize, usize, usize)>, bool)
    decreases t,
{
    if t == 0 {
        (Seq::empty(), Set::empty(), false)
    } else {
        let (out, seen, stopped) = clustered(idx, map, large_enough, target, (t - 1) as nat);
        let s = t - 1;
        let a = map[idx[3 * s] as int];
        let b = map[idx[3 * s + 1] as int];
        let c = map[idx[3 * s + 2] as int];
        if stopped || a == b || b == c || c == a || !large_enough[s] {
            (out, seen, stopped)
        } else {
            let key = sort3(a, b, c);
            let (out2, seen2) = if seen.contains(key) {
                (out, seen)
            } else {
                (out + seq![a as u32, b as u32, c as u32], seen.insert(key))
            };
            (out2, seen2, out2.len() / 3 >= target)
        }
    }
}

/// Hash code of a sorted corner triple with corners below 2^32.
pub open spec fn triple_code(k: (usize, usize, usize)) -> u128 {
    (k.0 * 0x1_0000_0000_0000_0000 + k.1 * 0x1_0000_0000 + k.2) as u128
}

proof fn lemma_triple_code_injective(k1: (usize, usize, usize), k2: (usize, usize, usize))
    requires
        k1.0 < 0x1_0000_0000 && k1.1 < 0x1_0000_0000 && k1.2 < 0x1_0000_0000,
        k2.0 < 0x1_0000_0000 && k2.1 < 0x1_0000_0000 && k2.2 < 0x1_0000_0000,
    ensures
        triple_code(k1) == triple_code(k2) ==> k1 == k2,
        triple_code(k1) == k1.0 * 0x1_0000_0000_0000_0000 + k1.1 * 0x1_0000_0000 + k1.2,
{
    let (a, b, c) = k1;
    let (d, e, f) = k2;
    assert(0 <= a * 0x1_0000_0000_0000_0000 + b * 0x1_0000_0000 + c < 0x1_0000_0000_0000_0000_0000_0000) by (nonlinear_arith)
        requires
            0 <= a < 0x1_0000_0000,
            0 <= b < 0x1_0000_0000,
            0 <= c < 0x1_0000_0000,
    ;
    assert(0 <= d * 0x1_0000_0000_0000_0000 + e * 0x1_0000_0000 + f < 0x1_0000_0000_0000_0000_0000_0000) by (nonlinear_arith)
        requires
            0 <= d < 0x1_0000_0000,
            0 <= e < 0x1_0000_0000,
            0 <= f < 0x1_0000_0000,
    ;
    if a * 0x1_0000_0000_0000_0000 + b * 0x1_0000_0000 + c == d * 0x1_0000_0000_0000_0000 + e * 0x1_0000_0000 + f {
        assert(a == d && b == e && c == f) by (nonlinear_arith)
            requires
                a * 0x1_0000_0000_0000_0000 + b * 0x1_0000_0000 + c == d * 0x1_0000_0000_0000_0000 + e * 0x1_0000_0000 + f,
                0 <= a < 0x1_0000_0000,
                0 <= b < 0x1_0000_0000,
                0 <= c < 0x1_0000_0000,
                0 <= d < 0x1_0000_0000,
                0 <= e < 0x1_0000_0000,
                0 <= f < 0x1_0000_0000,
        ;
    }
}

proof fn lemma_clustered_seen(idx: Seq<u32>, map: Seq<usize>, large_enough: Seq<bool>, target: int, t: nat)
    requires
        forall|v: int| 0 <= v < map.len() ==> #[trigger] map[v] < 0x1_0000_0000,
        forall|i: int| 0 <= i < 3 * t ==> #[trigger] idx[i] < map.len(),
    ensures
        forall|k: (usize, usize, usize)| #[trigger]
            clustered(idx, map, large_enough, target, t).1.contains(k) ==> k.0 < 0x1_0000_0000 && k.1
                < 0x1_0000_0000 && k.2 < 0x1_0000_0000,
        clustered(idx, map, large_enough, target, t).1.finite(),
    decreases t,
{
    if t > 0 {
        lemma_clustered_seen(idx, map, large_enough, target, (t - 1) as nat);
        let s = t - 1;
        assert(idx[3 * s] < map.len());
        assert(idx[3 * s + 1] < map.len());
        assert(idx[3 * s + 2] < map.len());
    }
}

/// Rebuilds the triangles of a clustered mesh (see [`clustered`]):
/// `vertex_mapping[v]` is the new vertex of old vertex `v`, and
/// `large_enough[s]` says whether triangle `s`, with its new corners, is
/// above the minimum area.
pub fn rebuild_clustered_triangles(
    indices: &Vec<u32>,
    vertex_mapping: &Vec<usize>,
    large_enough: &Vec<bool>,
    target_triangle_count: usize,
) -> (new_indices: Vec<u32>)
    requires
        large_enough@.len() == indices@.len() / 3,
        forall|i: int| 0 <= i < 3 * (indices@.len() / 3) ==> #[trigger] indices@[i] < vertex_mapping@.len(),
        forall|v: int| 0 <= v < vertex_mapping@.len() ==> #[trigger] vertex_mapping@[v] <= u32::MAX,
    ensures
        new_indices@ == clustered(
            indices@,
            vertex_mapping@,
            large_enough@,
            target_triangle_count as int,
            (indices@.len() / 3) as nat,
        ).0,
        new_indices@.len() % 3 == 0,
        forall|k1: int, k2: int|
            0 <= k1 < k2 < new_indices@.len() / 3 ==> !#[trigger] same_triangle(new_indices@, k1, k2),
{
    let ghost idx = indices@;
    let ghost map = vertex_mapping@;
    let ghost big = large_enough@;
    let ghost target = target_triangle_count as int;
    let ntri = indices.len() / 3;
    let mut new_indices: Vec<u32> = Vec::new();
    let mut triangle_set: HashSet<u128> = HashSet::new();
    let mut t: usize = 0;
    let mut stopped = false;
    while t < ntri && !stopped
        invariant
            ntri == idx.len() / 3,
            3 * ntri <= idx.len(),
            idx.len() <= usize::MAX,
            idx == indices@,
            map == vertex_mapping@,
            big == large_enough@,
            big.len() == ntri,
            target == target_triangle_count,
            forall|i: int| 0 <= i < 3 * ntri ==> #[trigger] idx[i] < map.len(),
            forall|v: int| 0 <= v < map.len() ==> #[trigger] map[v] <= u32::MAX,
            t <= ntri,
            new_indices@ == clustered(idx, map, big, target, t as nat).0,
            stopped == clustered(idx, map, big, target, t as nat).2,
            forall|code: u128| #[trigger]
                triangle_set@.contains(code) <==> exists|k: (usize, usize, usize)|
                    clustered(idx, map, big, target, t as nat).1.contains(k) && triple_code(k) == code,
        decreases ntri - t,
    {
        proof {
            lemma_clustered_seen(idx, map, big, target, t as nat);
        }
        let ghost seen = clustered(idx, map, big, target, t as nat).1;
        let v0 = vertex_mapping[indices[3 * t] as usize];
        let v1 = vertex_mapping[indices[3 * t + 1] as usize];
        let v2 = vertex_mapping[indices[3 * t + 2] as usize];
        if !(v0 == v1 || v1 == v2 || v2 == v0 || !large_enough[t]) {
            let (lo, mid, hi) = if v0 <= v1 {
                if v1 <= v2 {
                    (v0, v1, v2)
                } else if v0 <= v2 {
                    (v0, v2, v1)
                } else {
                    (v2, v0, v1)
                }
            } else {
                if v0 <= v2 {
                    (v1, v0, v2)
                } else if v1 <= v2 {
                    (v1, v2, v0)
                } else {
                    (v2, v1, v0)
                }
            };
            let ghost key = sort3(v0, v1, v2);
            assert((lo, mid, hi) == key);
            let code: u128 = (lo as u128) * 0x1_0000_0000_0000_0000u128 + (mid as u128) * 0x1_0000_0000u128
                + (hi as u128);
            proof {
                lemma_triple_code_injective(key, key);
            }
            assert(code == triple_code(key));
            let ghost was_seen = seen.contains(key);
            assert(triangle_set@.contains(code) == was_seen) by {
                if triangle_set@.contains(code) {
                    let k = choose|k: (usize, usize, usize)| seen.contains(k) && triple_code(k) == code;
                    lemma_triple_code_injective(k, key);
                }
            }
            let inserted = triangle_set.insert(code);
            if inserted {
                new_indices.push(v0 as u32);
                new_indices.push(v1 as u32);
                new_indices.push(v2 as u32);
            }
            proof {
                let next_seen = clustered(idx, map, big, target, (t + 1) as nat).1;
                assert(next_seen == if was_seen {
                    seen
                } else {
                    seen.insert(key)
                });
                assert forall|c: u128| #[trigger]
                    triangle_set@.contains(c) <==> exists|k: (usize, usize, usize)|
                        next_seen.contains(k) && triple_code(k) == c by {
                    if triangle_set@.contains(c) && c != code {
                        let k = choose|k: (usize, usize, usize)| seen.contains(k) && triple_code(k) == c;
                        assert(next_seen.contains(k));
                    }
                    if c == code {
                        assert(next_seen.contains(key));
                    }
                    if exists|k: (usize, usize, usize)| next_seen.contains(k) && triple_code(k) == c {
                        let k = choose|k: (usize, usize, usize)| next_seen.contains(k) && triple_code(k) == c;
                        if k != key {
                            assert(seen.contains(k));
                        }
                    }
                }
            }
            assert(new_indices@ =~= clustered(idx, map, big, target, (t + 1) as nat).0);
            stopped = new_indices.len() / 3 >= target_triangle_count;
        }
        t = t + 1;
    }
    proof {
        if stopped {
            lemma_clustered_stopped_stays(idx, map, big, target, t as nat, ntri as nat);
        }
        law_clustered_triangles_never_repeat(idx, map, big, target, ntri as nat);
    }
    new_indices
}

proof fn lemma_clustered_stopped_stays(idx: Seq<u32>, map: Seq<usize>, big: Seq<bool>, target: int, t: nat, n: nat)
    requires
        t <= n,
        clustered(idx, map, big, target, t).2,
    ensures
        clustered(idx, map, big, target, n) == clustered(idx, map, big, target, t),
    decreases n - t,
{
    if t < n {
        lemma_clustered_stopped_stays(idx, map, big, target, t, (n - 1) as nat);
    }
}


/// Every triangle of the list has three distinct corners.
pub open spec fn distinct_corners(out: Seq<u32>) -> bool {
    forall|s: int|
        0 <= s < out.len() / 3 ==> #[trigger] out[3 * s] != out[3 * s + 1] && out[3 * s + 1] != out[3 * s + 2]
            && out[3 * s + 2] != out[3 * s]
}

proof fn lemma_distinct_push(out: Seq<u32>, a: u32, b: u32, c: u32)
    requires
        distinct_corners(out),
        out.len() % 3 == 0,
        a != b && b != c && c != a,
    ensures
        distinct_corners(out + seq![a, b, c]),
{
    let out2 = out + seq![a, b, c];
    assert forall|k: int| 0 <= k < out2.len() / 3 implies #[trigger] out2[3 * k] != out2[3 * k + 1] && out2[3 * k + 1]
        != out2[3 * k + 2] && out2[3 * k + 2] != out2[3 * k] by {
        if k < out.len() / 3 {
            assert(out[3 * k] != out[3 * k + 1]);
        } else {
            assert(3 * k == out.len());
        }
    }
}

/// The rebuilt triangle list holds whole triangles with three distinct
/// corners each, and it stops growing at the target: it never holds more
/// than `max(target, 1)` triangles.
pub proof fn law_clustered_triangles_valid(
    idx: Seq<u32>,
    map: Seq<usize>,
    large_enough: Seq<bool>,
    target: int,
    t: nat,
)
    requires
        forall|v: int| 0 <= v < map.len() ==> #[trigger] map[v] <= u32::MAX,
        3 * t <= idx.len(),
        forall|i: int| 0 <= i < 3 * t ==> #[trigger] idx[i] < map.len(),
    ensures
        ({
            let out = clustered(idx, map, large_enough, target, t).0;
            &&& out.len() % 3 == 0
            &&& out.len() / 3 <= if target > 1 { target } else { 1 }
            &&& distinct_corners(out)
        }),
    decreases t,
{
    if t > 0 {
        law_clustered_triangles_valid(idx, map, large_enough, target, (t - 1) as nat);
        let (out, seen, stopped) = clustered(idx, map, large_enough, target, (t - 1) as nat);
        let s = t - 1;
        let a = map[idx[3 * s] as int];
        let b = map[idx[3 * s + 1] as int];
        let c = map[idx[3 * s + 2] as int];
        assert(idx[3 * s] < map.len() && idx[3 * s + 1] < map.len() && idx[3 * s + 2] < map.len());
        if !(stopped || a == b || b == c || c == a || !large_enough[s]) && !seen.contains(sort3(a, b, c)) {
            let out2 = out + seq![a as u32, b as u32, c as u32];
            assert(distinct_corners(out));
            assert(out2.len() / 3 == out.len() / 3 + 1);
            assert(clustered(idx, map, large_enough, target, t).0 == out2);
            assert(distinct_corners(out));
            assert(out.len() / 3 < if target > 1 { target } else { 1 }) by {
                lemma_clustered_below_target(idx, map, large_enough, target, (t - 1) as nat);
            }
            lemma_distinct_push(out, a as u32, b as u32, c as u32);
            assert(distinct_corners(out2));
        } else {
            assert(clustered(idx, map, large_enough, target, t).0 == out);
        }
    }
}

proof fn lemma_clustered_below_target(idx: Seq<u32>, map: Seq<usize>, large_enough: Seq<bool>, target: int, t: nat)
    requires
        !clustered(idx, map, large_enough, target, t).2,
    ensures
        clustered(idx, map, large_enough, target, t).0.len() / 3 < if target > 1 { target } else { 1 },
    decreases t,
{
    if t > 0 {
        let (out, seen, stopped) = clustered(idx, map, large_enough, target, (t - 1) as nat);
        if !stopped {
            lemma_clustered_below_target(idx, map, large_enough, target, (t - 1) as nat);
        }
    }
}

/// Corner set of triangle `k` of a triangle list, as a sorted triple.
pub open spec fn triangle_key(out: Seq<u32>, k: int) -> (usize, usize, usize) {
    sort3(out[3 * k] as usize, out[3 * k + 1] as usize, out[3 * k + 2] as usize)
}

proof fn lemma_clustered_keys(idx: Seq<u32>, map: Seq<usize>, large_enough: Seq<bool>, target: int, t: nat)
    requires
        forall|v: int| 0 <= v < map.len() ==> #[trigger] map[v] <= u32::MAX,
        3 * t <= idx.len(),
        forall|i: int| 0 <= i < 3 * t ==> #[trigger] idx[i] < map.len(),
    ensures
        ({
            let (out, seen, stopped) = clustered(idx, map, large_enough, target, t);
            &&& out.len() % 3 == 0
            &&& forall|k: int| 0 <= k < out.len() / 3 ==> seen.contains(#[trigger] triangle_key(out, k))
            &&& forall|k1: int, k2: int|
                0 <= k1 < k2 < out.len() / 3 ==> #[trigger] triangle_key(out, k1) != #[trigger] triangle_key(out, k2)
        }),
    decreases t,
{
    if t > 0 {
        lemma_clustered_keys(idx, map, large_enough, target, (t - 1) as nat);
        let (out, seen, stopped) = clustered(idx, map, large_enough, target, (t - 1) as nat);
        let s = t - 1;
        let a = map[idx[3 * s] as int];
        let b = map[idx[3 * s + 1] as int];
        let c = map[idx[3 * s + 2] as int];
        assert(idx[3 * s] < map.len() && idx[3 * s + 1] < map.len() && idx[3 * s + 2] < map.len());
        if !(stopped || a == b || b == c || c == a || !large_enough[s]) && !seen.contains(sort3(a, b, c)) {
            let key = sort3(a, b, c);
            let out2 = out + seq![a as u32, b as u32, c as u32];
            let seen2 = seen.insert(key);
            assert(clustered(idx, map, large_enough, target, t).0 == out2);
            assert(clustered(idx, map, large_enough, target, t).1 == seen2);
            let n: int = (out.len() / 3) as int;
            assert(out2.len() / 3 == n + 1);
            assert forall|k: int| 0 <= k < n implies #[trigger] triangle_key(out2, k) == triangle_key(out, k) by {
                assert(out2[3 * k] == out[3 * k]);
                assert(out2[3 * k + 1] == out[3 * k + 1]);
                assert(out2[3 * k + 2] == out[3 * k + 2]);
            }
            assert(triangle_key(out2, n) == key) by {
                assert(out2[3 * n] == a as u32);
                assert(out2[3 * n + 1] == b as u32);
                assert(out2[3 * n + 2] == c as u32);
            }
            assert forall|k: int| 0 <= k < out2.len() / 3 implies seen2.contains(#[trigger] triangle_key(out2, k)) by {
                if k < n {
                    assert(triangle_key(out2, k) == triangle_key(out, k));
                }
            }
            assert forall|k1: int, k2: int| 0 <= k1 < k2 < out2.len() / 3 implies #[trigger] triangle_key(out2, k1)
                != #[trigger] triangle_key(out2, k2) by {
                assert(triangle_key(out2, k1) == triangle_key(out, k1));
                if k2 < n {
                    assert(triangle_key(out2, k2) == triangle_key(out, k2));
                } else {
                    assert(seen.contains(triangle_key(out, k1)));
                }
            }
        } else {
            assert(clustered(idx, map, large_enough, target, t).0 == out);
            assert(clustered(idx, map, large_enough, target, t).1 == seen);
        }
    }
}

/// `(d, e, f)` lists the same three corners as `(a, b, c)`, in some order.
pub open spec fn same_corners(a: u32, b: u32, c: u32, d: u32, e: u32, f: u32) -> bool {
    ||| (d, e, f) == (a, b, c)
    ||| (d, e, f) == (a, c, b)
    ||| (d, e, f) == (b, a, c)
    ||| (d, e, f) == (b, c, a)
    ||| (d, e, f) == (c, a, b)
    ||| (d, e, f) == (c, b, a)
}

/// Triangles `k1` and `k2` of a triangle list have the same corners.
pub open spec fn same_triangle(out: Seq<u32>, k1: int, k2: int) -> bool {
    same_corners(
        out[3 * k1],
        out[3 * k1 + 1],
        out[3 * k1 + 2],
        out[3 * k2],
        out[3 * k2 + 1],
        out[3 * k2 + 2],
    )
}

/// Reordering the corners of a triangle does not change its key.
proof fn lemma_key_of_reordered_corners(out: Seq<u32>, k1: int, k2: int)
    requires
        same_triangle(out, k1, k2),
    ensures
        triangle_key(out, k1) == triangle_key(out, k2),
{
}

/// The rebuilt triangle list never holds the same triangle twice: no two
/// of its triangles have the same three corners, in whatever order.
pub proof fn law_clustered_triangles_never_repeat(
    idx: Seq<u32>,
    map: Seq<usize>,
    large_enough: Seq<bool>,
    target: int,
    t: nat,
)
    requires
        forall|v: int| 0 <= v < map.len() ==> #[trigger] map[v] <= u32::MAX,
        3 * t <= idx.len(),
        forall|i: int| 0 <= i < 3 * t ==> #[trigger] idx[i] < map.len(),
    ensures
        ({
            let out = clustered(idx, map, large_enough, target, t).0;
            &&& out.len() % 3 == 0
            &&& forall|k1: int, k2: int|
                0 <= k1 < k2 < out.len() / 3 ==> !#[trigger] same_triangle(out, k1, k2)
        }),
{
    lemma_clustered_keys(idx, map, large_enough, target, t);
    let out = clustered(idx, map, large_enough, target, t).0;
    assert forall|k1: int, k2: int| 0 <= k1 < k2 < out.len() / 3 implies !#[trigger] same_triangle(
        out,
        k1,
        k2,
    ) by {
        if same_triangle(out, k1, k2) {
            lemma_key_of_reordered_corners(out, k1, k2);
            assert(triangle_key(out, k1) != triangle_key(out, k2));
        }
    }
}

/// The rebuilt triangle list never holds the same triangle twice: no two
/// of its triangles have the same sorted corner triple.
pub proof fn law_clustered_triangles_distinct(
    idx: Seq<u32>,
    map: Seq<usize>,
    large_enough: Seq<bool>,
    target: int,
    t: nat,
)
    requires
        forall|v: int| 0 <= v < map.len() ==> #[trigger] map[v] <= u32::MAX,
        3 * t <= idx.len(),
        forall|i: int| 0 <= i < 3 * t ==> #[trigger] idx[i] < map.len(),
    ensures
        ({
            let out = clustered(idx, map, large_enough, target, t).0;
            forall|k1: int, k2: int|
                0 <= k1 < k2 < out.len() / 3 ==> #[trigger] triangle_key(out, k1) != #[trigger] triangle_key(out, k2)
        }),
{
    lemma_clustered_keys(idx, map, large_enough, target, t);
}

} // verus!
