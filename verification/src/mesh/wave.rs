//! Index buffers of the regular grids that wave surfaces and helper planes
//! are drawn on.
use vstd::prelude::*;

verus! {

/// The two triangles of grid cell `(i, j)` on a grid `w` vertices wide,
/// counter-clockwise: `(c, n, c+1)` and `(c+1, n, n+1)` where `c = j*w + i`
/// and `n = c + w`.
pub open spec fn grid_cell(w: int, j: int, i: int) -> Seq<u32> {
    let c = j * w + i;
    let n = c + w;
    seq![c as u32, n as u32, (c + 1) as u32, (c + 1) as u32, n as u32, (n + 1) as u32]
}

/// The first `count` cells of cell row `j`, left to right.
pub open spec fn grid_row(w: int, j: int, count: nat) -> Seq<u32>
    decreases count,
{
    if count == 0 {
        Seq::empty()
    } else {
        grid_row(w, j, (count - 1) as nat) + grid_cell(w, j, count - 1)
    }
}

/// The first `rows` cell rows of a `w`-wide grid, each with `w - 1` cells.
pub open spec fn grid_rows(w: int, rows: nat) -> Seq<u32>
    decreases rows,
{
    if rows == 0 {
        Seq::empty()
    } else {
        grid_rows(w, (rows - 1) as nat) + grid_row(w, rows - 1, (w - 1) as nat)
    }
}

/// Triangle list over a `width_resolution` by `depth_resolution` vertex grid
/// laid out row by row.
pub open spec fn spec_grid_triangles(width_resolution: int, depth_resolution: int) -> Seq<u32> {
    grid_rows(width_resolution, (depth_resolution - 1) as nat)
}

proof fn lemma_grid_row_len(w: int, j: int, count: nat)
    ensures
        grid_row(w, j, count).len() == 6 * count,
    decreases count,
{
    if count > 0 {
        lemma_grid_row_len(w, j, (count - 1) as nat);
    }
}

proof fn lemma_grid_rows_len(w: int, rows: nat)
    requires
        w >= 1,
    ensures
        grid_rows(w, rows).len() == 6 * (w - 1) * rows,
    decreases rows,
{
    if rows > 0 {
        lemma_grid_rows_len(w, (rows - 1) as nat);
        lemma_grid_row_len(w, rows - 1, (w - 1) as nat);
        assert(6 * (w - 1) * (rows - 1) + 6 * (w - 1) == 6 * (w - 1) * rows) by (nonlinear_arith);
    } else {
        assert(6 * (w - 1) * rows == 0) by (nonlinear_arith)
            requires
                rows == 0,
        ;
    }
}

/// Triangle indices of a regular vertex grid: every cell becomes two
/// counter-clockwise triangles, `6 * (w - 1) * (d - 1)` indices in all.
pub fn grid_triangle_indices(width_resolution: usize, depth_resolution: usize) -> (indices: Vec<u32>)
    requires
        width_resolution >= 1,
        depth_resolution >= 1,
        width_resolution * depth_resolution <= u32::MAX + 1,
    ensures
        indices@ == spec_grid_triangles(width_resolution as int, depth_resolution as int),
        indices@.len() == 6 * (width_resolution - 1) * (depth_resolution - 1),
{
    let w = width_resolution;
    let d = depth_resolution;
    let mut indices: Vec<u32> = Vec::new();
    let mut j: usize = 0;
    while j < d - 1
        invariant
            w == width_resolution,
            d == depth_resolution,
            w >= 1,
            d >= 1,
            w * d <= u32::MAX + 1,
            j <= d - 1,
            indices@ == grid_rows(w as int, j as nat),
        decreases d - 1 - j,
    {
        let mut i: usize = 0;
        while i < w - 1
            invariant
                w == width_resolution,
                d == depth_resolution,
                w >= 1,
                w * d <= u32::MAX + 1,
                j < d - 1,
                i <= w - 1,
                indices@ == grid_rows(w as int, j as nat) + grid_row(w as int, j as int, i as nat),
            decreases w - 1 - i,
        {
            assert((j + 1) * w + i + 1 < w * d) by (nonlinear_arith)
                requires
                    j + 1 < d,
                    i + 1 < w,
            ;
            assert(j * w + i < (j + 1) * w + i) by (nonlinear_arith)
                requires
                    w >= 1,
            ;
            assert((j + 1) * w == j * w + w) by (nonlinear_arith);
            let current = j * w + i;
            let next_row = current + w;
            indices.push(current as u32);
            indices.push(next_row as u32);
            indices.push((current + 1) as u32);
            indices.push((current + 1) as u32);
            indices.push(next_row as u32);
            indices.push((next_row + 1) as u32);
            proof {
                let ghost before = grid_rows(w as int, j as nat) + grid_row(w as int, j as int, i as nat);
                assert(grid_row(w as int, j as int, (i + 1) as nat) == grid_row(w as int, j as int, i as nat)
                    + grid_cell(w as int, j as int, i as int));
                assert(indices@ =~= before + grid_cell(w as int, j as int, i as int));
                assert(indices@ =~= grid_rows(w as int, j as nat) + grid_row(w as int, j as int, (i + 1) as nat));
            }
            i = i + 1;
        }
        proof {
            assert(grid_rows(w as int, (j + 1) as nat) == grid_rows(w as int, j as nat) + grid_row(w as int, j as int, (w - 1) as nat));
        }
        j = j + 1;
    }
    proof {
        lemma_grid_rows_len(w as int, (d - 1) as nat);
    }
    indices
}

/// Line-list indices of a reference grid with `divisions + 1` lines along
/// each axis: line pair `k` uses vertices `4k .. 4k + 3`.
pub open spec fn spec_grid_lines(divisions: int) -> Seq<u32> {
    Seq::new((4 * (divisions + 1)) as nat, |k: int| k as u32)
}

/// Indices of the reference grid drawn under the model: four consecutive
/// vertices per grid position, `0, 1, 2, 3, 4, ...` in order.
pub fn grid_line_indices(divisions: usize) -> (indices: Vec<u32>)
    requires
        4 * (divisions + 1) <= u32::MAX + 1,
    ensures
        indices@ == spec_grid_lines(divisions as int),
{
    let mut indices: Vec<u32> = Vec::new();
    let mut i: usize = 0;
    while i <= divisions
        invariant
            4 * (divisions + 1) <= u32::MAX + 1,
            i <= divisions + 1,
            indices@ =~= spec_grid_lines(i as int - 1),
        decreases divisions + 1 - i,
    {
        let base_idx = (i * 4) as u32;
        indices.push(base_idx);
        indices.push(base_idx + 1);
        indices.push(base_idx + 2);
        indices.push(base_idx + 3);
        assert(indices@ =~= spec_grid_lines(i as int));
        i = i + 1;
    }
    indices
}

} // verus!
