//! Which cell colours which vertex when per-cell colours are spread onto the
//! vertices of a triangle mesh.
use vstd::prelude::*;

verus! {

/// Number of triangles whose cell assignment is looked at: one per mapping
/// entry, or one per triangle when there is no mapping.
pub open spec fn color_steps(indices: Seq<u32>, mapping: Option<Seq<usize>>) -> int {
    match mapping {
        Some(m) => m.len() as int,
        None => (indices.len() / 3) as int,
    }
}

/// The cell whose colour triangle `t` takes, if any. With a mapping it is the
/// mapped cell, provided the cell has a colour and the triangle exists;
/// without one, triangle `t` takes cell `t` while there are colours.
pub open spec fn triangle_cell(
    indices: Seq<u32>,
    mapping: Option<Seq<usize>>,
    num_cells: int,
    t: int,
) -> Option<usize> {
    match mapping {
        Some(m) => if m[t] < num_cells && 3 * t + 2 < indices.len() {
            Some(m[t])
        } else {
            None
        },
        None => if t < num_cells {
            Some(t as usize)
        } else {
            None
        },
    }
}

/// Triangle `t` has vertex `v` as one of its corners.
pub open spec fn touches(indices: Seq<u32>, t: int, v: int) -> bool {
    indices[3 * t] == v || indices[3 * t + 1] == v || indices[3 * t + 2] == v
}

/// The cell colouring vertex `v` after triangles `0..t`: the cell of the last
/// of them that has a cell and has `v` as a corner.
pub open spec fn color_source(
    indices: Seq<u32>,
    mapping: Option<Seq<usize>>,
    num_cells: int,
    t: int,
    v: int,
) -> Option<usize>
    decreases t,
{
    if t <= 0 {
        None
    } else {
        match triangle_cell(indices, mapping, num_cells, t - 1) {
            Some(c) => if touches(indices, t - 1, v) {
                Some(c)
            } else {
                color_source(indices, mapping, num_cells, t - 1, v)
            },
            None => color_source(indices, mapping, num_cells, t - 1, v),
        }
    }
}

/// For each vertex, the cell whose colour it ends up with (`None`: it keeps
/// the default colour).
///
/// Triangles are visited in order and each colours its three corners with
/// the colour of its cell, so a vertex shared by several triangles takes the
/// cell of the last of them. With a mapping, triangle `t` uses cell
/// `mapping[t]` and is skipped when that cell has no colour or the triangle
/// is missing from the index list; without one, triangle `t` uses cell `t`
/// and the walk stops at the first triangle beyond the colours.
pub fn cell_color_sources(
    indices: &Vec<u32>,
    num_vertices: usize,
    triangle_to_cell_mapping: &Option<Vec<usize>>,
    num_cells: usize,
) -> (sources: Vec<Option<usize>>)
    ensures
        sources@.len() == num_vertices,
        ({
            let m = match triangle_to_cell_mapping {
                Some(v) => Some(v@),
                None => None,
            };
            forall|v: int|
                0 <= v < num_vertices ==> #[trigger] sources@[v] == color_source(
                    indices@,
                    m,
                    num_cells as int,
                    color_steps(indices@, m),
                    v,
                )
        }),
{
    let ghost m = match triangle_to_cell_mapping {
        Some(v) => Some(v@),
        None => None,
    };
    let mut vertices_color: Vec<Option<usize>> = Vec::new();
    let mut k: usize = 0;
    while k < num_vertices
        invariant
            k <= num_vertices,
            vertices_color@.len() == k,
            forall|v: int| 0 <= v < k ==> #[trigger] vertices_color@[v] == Option::<usize>::None,
        decreases num_vertices - k,
    {
        vertices_color.push(None);
        k = k + 1;
    }
    let steps: usize = match triangle_to_cell_mapping {
        Some(mapping) => mapping.len(),
        None => indices.len() / 3,
    };
    let mut t: usize = 0;
    let index_count = indices.len();
    while t < steps
        invariant
            index_count == indices@.len(),
            steps == color_steps(indices@, m),
            m == match triangle_to_cell_mapping {
                Some(v) => Some(v@),
                None => None::<Seq<usize>>,
            },
            t <= steps,
            vertices_color@.len() == num_vertices,
            forall|v: int|
                0 <= v < num_vertices ==> #[trigger] vertices_color@[v] == color_source(
                    indices@,
                    m,
                    num_cells as int,
                    t as int,
                    v,
                ),
        ensures
            forall|v: int|
                0 <= v < num_vertices ==> #[trigger] vertices_color@[v] == color_source(
                    indices@,
                    m,
                    num_cells as int,
                    steps as int,
                    v,
                ),
        decreases steps - t,
    {
        let (assigned, c): (bool, usize) = match triangle_to_cell_mapping {
            Some(mapping) => {
                let cell_idx = mapping[t];
                (cell_idx < num_cells && t < indices.len() / 3, cell_idx)
            },
            None => (t < num_cells, t),
        };
        assert(assigned ==> t < indices@.len() / 3);
        assert(triangle_cell(indices@, m, num_cells as int, t as int) == if assigned {
            Some(c)
        } else {
            None
        });
        if assigned {
            {
                let i0: usize = 3 * t;
                let a = indices[i0] as usize;
                let b = indices[i0 + 1] as usize;
                let d = indices[i0 + 2] as usize;
                if a < vertices_color.len() {
                    vertices_color.set(a, Some(c));
                }
                if b < vertices_color.len() {
                    vertices_color.set(b, Some(c));
                }
                if d < vertices_color.len() {
                    vertices_color.set(d, Some(c));
                }
                assert forall|v: int| 0 <= v < num_vertices implies #[trigger] vertices_color@[v]
                    == color_source(indices@, m, num_cells as int, t + 1, v) by {
                    if touches(indices@, t as int, v) {
                    } else {
                    }
                }
            }
        } else {
            {
                if triangle_to_cell_mapping.is_none() {
                    assert forall|v: int| 0 <= v < num_vertices implies #[trigger] vertices_color@[v]
                        == color_source(indices@, m, num_cells as int, steps as int, v) by {
                        lemma_fallback_stops(indices@, num_cells as int, t as int, steps as int, v);
                    }
                    break;
                }
            }
        }
        t = t + 1;
    }
    vertices_color
}

/// Without a mapping, once a triangle has no colour none of the later ones
/// has.
proof fn lemma_fallback_stops(indices: Seq<u32>, num_cells: int, t: int, steps: int, v: int)
    requires
        0 <= t <= steps,
        t >= num_cells,
    ensures
        color_source(indices, None, num_cells, steps, v) == color_source(
            indices,
            None,
            num_cells,
            t,
            v,
        ),
    decreases steps - t,
{
    if steps > t {
        lemma_fallback_stops(indices, num_cells, t, steps - 1, v);
    }
}

} // verus!
