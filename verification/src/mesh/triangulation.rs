//! Triangulation of polygons and VTK cells.
use crate::mesh::vtk::{CellType, Cells, VertexNumbers, xml_cell_start};
use crate::mesh::{QuadraticEdge, QuadraticTriangle};
use vstd::prelude::*;

verus! {

/// Number of triangles a fan over `n` vertices produces.
pub open spec fn fan_triangle_count(n: int) -> int {
    if n < 3 {
        0
    } else {
        n - 2
    }
}

/// Fan triangulation around the first vertex: triangle `t` is
/// `(v[0], v[t + 1], v[t + 2])`; fewer than three vertices give nothing.
pub open spec fn spec_fan(v: Seq<u32>) -> Seq<u32> {
    Seq::new(
        (3 * fan_triangle_count(v.len() as int)) as nat,
        |k: int|
            if k % 3 == 0 {
                v[0]
            } else if k % 3 == 1 {
                v[k / 3 + 1]
            } else {
                v[k / 3 + 2]
            },
    )
}

/// `n` copies of `x`.
pub open spec fn repeat<T>(x: T, n: int) -> Seq<T> {
    Seq::new(if n < 0 { 0 } else { n as nat }, |j: int| x)
}

/// Fan triangulation of a polygon given by its vertex indices.
///
/// The first vertex is the centre of the fan; a polygon with `n >= 3`
/// vertices gives `n - 2` triangles, one with fewer gives none.
pub fn triangulate_fan(vertices: &[u32]) -> (indices: Vec<u32>)
    ensures
        indices@ == spec_fan(vertices@),
{
    let mut indices: Vec<u32> = Vec::new();
    if vertices.len() < 3 {
        assert(indices@ =~= spec_fan(vertices@));
        return indices;
    }
    let center_vertex = vertices[0];
    let n = vertices.len();
    let mut i: usize = 1;
    while i < n - 1
        invariant
            n == vertices@.len(),
            n >= 3,
            1 <= i <= n - 1,
            center_vertex == vertices@[0],
            indices@ =~= spec_fan(vertices@).subrange(0, 3 * (i - 1)),
        decreases n - i,
    {
        indices.push(center_vertex);
        indices.push(vertices[i]);
        indices.push(vertices[i + 1]);
        i = i + 1;
    }
    assert(indices@ =~= spec_fan(vertices@));
    indices
}

/// End (exclusive) of the first legacy cell record `n i_1 ... i_n` in
/// `data`; a truncated record ends with the data.
pub open spec fn legacy_cell_end(data: Seq<u32>) -> int {
    if 1 + data[0] <= data.len() {
        1 + data[0]
    } else {
        data.len() as int
    }
}

/// Vertex indices of the first legacy cell record in `data`.
pub open spec fn legacy_cell(data: Seq<u32>) -> Seq<u32> {
    data.subrange(1, legacy_cell_end(data))
}

/// Triangle indices of the polygons in a legacy vertex list, reading cells
/// `cell..num_cells` from the front of `data`: each polygon is fan
/// triangulated, and the reading stops when the data runs out.
pub open spec fn polygon_indices(data: Seq<u32>, cell: int, num_cells: int) -> Seq<u32>
    decreases data.len(),
{
    if cell >= num_cells || data.len() == 0 {
        seq![]
    } else {
        spec_fan(legacy_cell(data)) + polygon_indices(
            data.subrange(legacy_cell_end(data), data.len() as int),
            cell + 1,
            num_cells,
        )
    }
}

/// For each triangle of [`polygon_indices`], the polygon it came from.
pub open spec fn polygon_mapping(data: Seq<u32>, cell: int, num_cells: int) -> Seq<usize>
    decreases data.len(),
{
    if cell >= num_cells || data.len() == 0 {
        seq![]
    } else {
        repeat(cell as usize, fan_triangle_count(legacy_cell(data).len() as int))
            + polygon_mapping(
            data.subrange(legacy_cell_end(data), data.len() as int),
            cell + 1,
            num_cells,
        )
    }
}

/// Copies `v[start..end]` into a new vector.
fn copy_range(v: &Vec<u32>, start: usize, end: usize) -> (out: Vec<u32>)
    requires
        start <= end <= v@.len(),
    ensures
        out@ == v@.subrange(start as int, end as int),
{
    let mut out: Vec<u32> = Vec::new();
    let mut k = start;
    while k < end
        invariant
            start <= k <= end <= v@.len(),
            out@ =~= v@.subrange(start as int, k as int),
        decreases end - k,
    {
        out.push(v[k]);
        k = k + 1;
    }
    out
}

/// Appends `n` copies of `x`.
fn push_repeated(dst: &mut Vec<usize>, x: usize, n: usize)
    ensures
        final(dst)@ == old(dst)@ + repeat(x, n as int),
{
    let mut k: usize = 0;
    while k < n
        invariant
            k <= n,
            dst@ =~= old(dst)@ + repeat(x, k as int),
        decreases n - k,
    {
        dst.push(x);
        k = k + 1;
    }
    assert(dst@ =~= old(dst)@ + repeat(x, n as int));
}

/// Reads the first legacy cell record at `pos` and returns its end.
fn legacy_record_end(data: &Vec<u32>, pos: usize) -> (end: usize)
    requires
        pos < data@.len(),
    ensures
        end == pos + legacy_cell_end(data@.subrange(pos as int, data@.len() as int)),
        pos < end <= data@.len(),
{
    let n = data[pos] as usize;
    let avail = data.len() - (pos + 1);
    if n <= avail {
        pos + 1 + n
    } else {
        data.len()
    }
}

/// Splitting the first cell record off the front of `data`.
proof fn lemma_legacy_record(data: Seq<u32>, pos: int, end: int)
    requires
        0 <= pos < end <= data.len(),
        end == pos + legacy_cell_end(data.subrange(pos, data.len() as int)),
    ensures
        legacy_cell(data.subrange(pos, data.len() as int)) == data.subrange(pos + 1, end),
        data.subrange(pos, data.len() as int).subrange(
            legacy_cell_end(data.subrange(pos, data.len() as int)),
            data.len() - pos,
        ) == data.subrange(end, data.len() as int),
{
    assert(legacy_cell(data.subrange(pos, data.len() as int)) =~= data.subrange(pos + 1, end));
    assert(data.subrange(pos, data.len() as int).subrange(
        legacy_cell_end(data.subrange(pos, data.len() as int)),
        data.len() - pos,
    ) =~= data.subrange(end, data.len() as int));
}

/// Converts a polygon topology into triangles.
///
/// Returns the triangle index list and, for each triangle, the index of the
/// polygon it came from. Polygons with fewer than three vertices are skipped;
/// the others are fan triangulated (a triangle as it is, a quad as
/// `(0, 1, 2), (0, 2, 3)`).
pub fn triangulate_polygon(topology: VertexNumbers) -> (res: (Vec<u32>, Vec<usize>))
    requires
        topology.convertible(),
    ensures
        res.0@ == polygon_indices(
            topology.spec_legacy().1,
            0,
            topology.spec_legacy().0 as int,
        ),
        res.1@ == polygon_mapping(
            topology.spec_legacy().1,
            0,
            topology.spec_legacy().0 as int,
        ),
{
    let mut indices: Vec<u32> = Vec::new();
    let mut triangle_to_cell_mapping: Vec<usize> = Vec::new();
    let (num_cells, data) = topology.into_legacy();
    let ghost full = data@;
    let mut pos: usize = 0;
    let mut cell_idx: u32 = 0;
    assert(data@.subrange(0, data@.len() as int) =~= full);
    assert(indices@ + polygon_indices(full, 0, num_cells as int) =~= polygon_indices(
        full,
        0,
        num_cells as int,
    ));
    assert(triangle_to_cell_mapping@ + polygon_mapping(full, 0, num_cells as int) =~= polygon_mapping(
        full,
        0,
        num_cells as int,
    ));
    while cell_idx < num_cells
        invariant
            full == data@,
            pos <= data@.len(),
            indices@ + polygon_indices(
                data@.subrange(pos as int, data@.len() as int),
                cell_idx as int,
                num_cells as int,
            ) == polygon_indices(full, 0, num_cells as int),
            triangle_to_cell_mapping@ + polygon_mapping(
                data@.subrange(pos as int, data@.len() as int),
                cell_idx as int,
                num_cells as int,
            ) == polygon_mapping(full, 0, num_cells as int),
        ensures
            polygon_indices(
                data@.subrange(pos as int, data@.len() as int),
                cell_idx as int,
                num_cells as int,
            ) == Seq::<u32>::empty(),
            polygon_mapping(
                data@.subrange(pos as int, data@.len() as int),
                cell_idx as int,
                num_cells as int,
            ) == Seq::<usize>::empty(),
        decreases num_cells - cell_idx,
    {
        let ghost rest = data@.subrange(pos as int, data@.len() as int);
        if pos >= data.len() {
            assert(rest.len() == 0);
            break;
        }
        let end = legacy_record_end(&data, pos);
        proof {
            lemma_legacy_record(data@, pos as int, end as int);
        }
        let vertices = copy_range(&data, pos + 1, end);
        let fan_indices = triangulate_fan(vertices.as_slice());
        let mut fan_vec = fan_indices;
        let ntri = if vertices.len() < 3 {
            0
        } else {
            vertices.len() - 2
        };
        indices.append(&mut fan_vec);
        push_repeated(&mut triangle_to_cell_mapping, cell_idx as usize, ntri);
        assert(indices@ + polygon_indices(
            data@.subrange(end as int, data@.len() as int),
            cell_idx + 1,
            num_cells as int,
        ) =~= polygon_indices(full, 0, num_cells as int));
        assert(triangle_to_cell_mapping@ + polygon_mapping(
            data@.subrange(end as int, data@.len() as int),
            cell_idx + 1,
            num_cells as int,
        ) =~= polygon_mapping(full, 0, num_cells as int));
        pos = end;
        cell_idx = cell_idx + 1;
    }
    assert(indices@ =~= polygon_indices(full, 0, num_cells as int));
    assert(triangle_to_cell_mapping@ =~= polygon_mapping(full, 0, num_cells as int));
    (indices, triangle_to_cell_mapping)
}

} // verus!

verus! {

/// Legacy cell records read from the front of `data` for cells `i..k`,
/// paired with their types; a record cut short by the end of the data is
/// dropped.
pub open spec fn legacy_cell_data(types: Seq<CellType>, data: Seq<u32>, i: int, k: int) -> Seq<
    (CellType, Seq<u32>),
>
    decreases data.len(),
{
    if i >= k || data.len() == 0 {
        seq![]
    } else {
        let cell = legacy_cell(data);
        (if cell.len() == data[0] {
            seq![(types[i], cell)]
        } else {
            seq![]
        }) + legacy_cell_data(
            types,
            data.subrange(legacy_cell_end(data), data.len() as int),
            i + 1,
            k,
        )
    }
}

/// XML cells `i..` (the previous one ending at `start`), paired with their
/// types, up to the first cell whose end lies beyond the connectivity array.
pub open spec fn xml_cell_data(
    types: Seq<CellType>,
    connectivity: Seq<u64>,
    offsets: Seq<u64>,
    i: int,
    start: int,
) -> Seq<(CellType, Seq<u32>)>
    decreases types.len() - i,
{
    if i < 0 || i >= types.len() || i >= offsets.len() || offsets[i] > connectivity.len() {
        seq![]
    } else {
        seq![
            (
                types[i],
                connectivity.subrange(start, offsets[i] as int).map_values(|x: u64| x as u32),
            ),
        ] + xml_cell_data(types, connectivity, offsets, i + 1, offsets[i] as int)
    }
}

/// Every XML cell that is read starts no later than it ends.
pub open spec fn xml_cells_ordered(
    types: Seq<CellType>,
    connectivity: Seq<u64>,
    offsets: Seq<u64>,
) -> bool {
    forall|i: int|
        0 <= i < types.len() && i < offsets.len() && (forall|j: int|
            0 <= j <= i ==> #[trigger] offsets[j] <= connectivity.len()) ==> xml_cell_start(
            offsets,
            i,
        ) <= offsets[i]
}

/// The cells can be read without running past a slice boundary.
pub open spec fn cells_readable(cells: Cells) -> bool {
    match cells.cell_verts {
        VertexNumbers::Legacy { .. } => true,
        VertexNumbers::XML { connectivity, offsets } => xml_cells_ordered(
            cells.types@,
            connectivity@,
            offsets@,
        ),
    }
}

/// The (type, vertex list) pairs read from the cells.
pub open spec fn spec_cell_data(cells: Cells) -> Seq<(CellType, Seq<u32>)> {
    match cells.cell_verts {
        VertexNumbers::Legacy { num_cells, vertices } => legacy_cell_data(
            cells.types@,
            vertices@,
            0,
            if cells.types@.len() < num_cells {
                cells.types@.len() as int
            } else {
                num_cells as int
            },
        ),
        VertexNumbers::XML { connectivity, offsets } => xml_cell_data(
            cells.types@,
            connectivity@,
            offsets@,
            0,
            0,
        ),
    }
}

/// The view of an exec list of cells.
pub open spec fn cell_data_view(cd: Seq<(CellType, Vec<u32>)>) -> Seq<(CellType, Seq<u32>)> {
    cd.map_values(|p: (CellType, Vec<u32>)| (p.0, p.1@))
}

proof fn lemma_cell_data_view_push(cd: Seq<(CellType, Vec<u32>)>, p: (CellType, Vec<u32>))
    ensures
        cell_data_view(cd.push(p)) == cell_data_view(cd) + seq![(p.0, p.1@)],
{
    assert(cell_data_view(cd.push(p)) =~= cell_data_view(cd) + seq![(p.0, p.1@)]);
}

proof fn lemma_ordered_prefix(types: Seq<CellType>, connectivity: Seq<u64>, offsets: Seq<u64>, i: int)
    requires
        0 <= i <= offsets.len(),
        forall|j: int| 0 <= j < i ==> #[trigger] offsets[j] <= connectivity.len(),
        forall|k: int| 0 <= k < i ==> #[trigger] xml_cell_start(offsets, k) <= offsets[k],
        i == offsets.len() || i >= types.len() || offsets[i] > connectivity.len(),
    ensures
        xml_cells_ordered(types, connectivity, offsets),
{
    assert forall|k: int|
        0 <= k < types.len() && k < offsets.len() && (forall|j: int|
            0 <= j <= k ==> #[trigger] offsets[j] <= connectivity.len()) implies xml_cell_start(offsets, k)
        <= offsets[k] by {
        if k >= i {
            assert(offsets[i] <= connectivity.len());
        } else {
            assert(xml_cell_start(offsets, k) <= offsets[k]);
        }
    }
}

proof fn lemma_out_of_order(types: Seq<CellType>, connectivity: Seq<u64>, offsets: Seq<u64>, i: int)
    requires
        0 <= i < offsets.len(),
        i < types.len(),
        forall|j: int| 0 <= j <= i ==> #[trigger] offsets[j] <= connectivity.len(),
        xml_cell_start(offsets, i) > offsets[i],
    ensures
        !xml_cells_ordered(types, connectivity, offsets),
{
}

/// Whether the cells can be read (see `cells_readable`): in the XML layout,
/// no cell that is read ends before it starts.
pub fn cells_in_order(cells: &Cells) -> (ok: bool)
    ensures
        ok == cells_readable(*cells),
{
    match &cells.cell_verts {
        VertexNumbers::Legacy { .. } => true,
        VertexNumbers::XML { connectivity, offsets } => {
            let ntypes = cells.types.len();
            let n = offsets.len();
            let conn_len = connectivity.len();
            let mut i: usize = 0;
            let mut out_of_range = false;
            let mut reversed = false;
            while i < n && i < ntypes && !out_of_range && !reversed
                invariant
                    ntypes == cells.types@.len(),
                    n == offsets@.len(),
                    conn_len == connectivity@.len(),
                    i <= n,
                    forall|j: int| 0 <= j < i ==> #[trigger] offsets@[j] <= conn_len,
                    forall|k: int| 0 <= k < i ==> #[trigger] xml_cell_start(offsets@, k) <= offsets@[k],
                    out_of_range ==> i < n && offsets@[i as int] > conn_len,
                    reversed ==> i < n && i < ntypes && offsets@[i as int] <= conn_len
                        && xml_cell_start(offsets@, i as int) > offsets@[i as int],
                decreases n - i, if out_of_range || reversed { 0int } else { 1int },
            {
                let end = offsets[i];
                if end as u128 > conn_len as u128 {
                    out_of_range = true;
                } else {
                    let start = if i == 0 {
                        0
                    } else {
                        offsets[i - 1]
                    };
                    assert(start == xml_cell_start(offsets@, i as int));
                    if start > end {
                        reversed = true;
                    } else {
                        i = i + 1;
                    }
                }
            }
            proof {
                if reversed {
                    lemma_out_of_order(cells.types@, connectivity@, offsets@, i as int);
                } else {
                    lemma_ordered_prefix(cells.types@, connectivity@, offsets@, i as int);
                }
            }
            !reversed
        },
    }
}

/// Reads the cells into (type, vertex list) pairs.
///
/// Legacy layout: cells are read in order while both a type and a record
/// remain, and a record cut short by the end of the data is dropped. XML
/// layout: cells are read in order until a cell ends beyond the connectivity
/// array; point indices are truncated to 32 bits.
pub fn extract_cell_data(cells: Cells) -> (cell_data: Vec<(CellType, Vec<u32>)>)
    requires
        cells_readable(cells),
    ensures
        cell_data_view(cell_data@) == spec_cell_data(cells),
{
    let mut cell_data: Vec<(CellType, Vec<u32>)> = Vec::new();
    let types = cells.types;
    match cells.cell_verts {
        VertexNumbers::Legacy { num_cells, vertices: data } => {
            let k: usize = if types.len() < num_cells as usize {
                types.len()
            } else {
                num_cells as usize
            };
            let ghost full = data@;
            let mut pos: usize = 0;
            let mut cell_idx: usize = 0;
            assert(data@.subrange(0, data@.len() as int) =~= full);
            assert(cell_data_view(cell_data@) + legacy_cell_data(types@, full, 0, k as int)
                =~= legacy_cell_data(types@, full, 0, k as int));
            while cell_idx < k
                invariant
                    full == data@,
                    k <= types@.len(),
                    pos <= data@.len(),
                    cell_data_view(cell_data@) + legacy_cell_data(
                        types@,
                        data@.subrange(pos as int, data@.len() as int),
                        cell_idx as int,
                        k as int,
                    ) == legacy_cell_data(types@, full, 0, k as int),
                ensures
                    legacy_cell_data(
                        types@,
                        data@.subrange(pos as int, data@.len() as int),
                        cell_idx as int,
                        k as int,
                    ) == Seq::<(CellType, Seq<u32>)>::empty(),
                decreases k - cell_idx,
            {
                if pos >= data.len() {
                    break;
                }
                let end = legacy_record_end(&data, pos);
                proof {
                    lemma_legacy_record(data@, pos as int, end as int);
                }
                let vertices = copy_range(&data, pos + 1, end);
                let ghost before = cell_data@;
                if vertices.len() == data[pos] as usize {
                    let item = (types[cell_idx], vertices);
                    proof {
                        lemma_cell_data_view_push(before, item);
                    }
                    cell_data.push(item);
                }
                assert(cell_data_view(cell_data@) + legacy_cell_data(
                    types@,
                    data@.subrange(end as int, data@.len() as int),
                    cell_idx + 1,
                    k as int,
                ) =~= legacy_cell_data(types@, full, 0, k as int));
                pos = end;
                cell_idx = cell_idx + 1;
            }
            assert(cell_data_view(cell_data@) =~= legacy_cell_data(types@, full, 0, k as int));
        },
        VertexNumbers::XML { connectivity, offsets } => {
            let mut start_idx: usize = 0;
            let mut cell_idx: usize = 0;
            assert(cell_data_view(cell_data@) + xml_cell_data(
                types@,
                connectivity@,
                offsets@,
                0,
                0,
            ) =~= xml_cell_data(types@, connectivity@, offsets@, 0, 0));
            while cell_idx < types.len()
                invariant
                    xml_cells_ordered(types@, connectivity@, offsets@),
                    start_idx == xml_cell_start(offsets@, cell_idx as int),
                    start_idx <= connectivity@.len(),
                    cell_idx <= types@.len(),
                    forall|j: int|
                        0 <= j < cell_idx ==> #[trigger] offsets@[j] <= connectivity@.len(),
                    cell_idx <= offsets@.len(),
                    cell_data_view(cell_data@) + xml_cell_data(
                        types@,
                        connectivity@,
                        offsets@,
                        cell_idx as int,
                        start_idx as int,
                    ) == xml_cell_data(types@, connectivity@, offsets@, 0, 0),
                ensures
                    xml_cell_data(
                        types@,
                        connectivity@,
                        offsets@,
                        cell_idx as int,
                        start_idx as int,
                    ) == Seq::<(CellType, Seq<u32>)>::empty(),
                decreases types@.len() - cell_idx,
            {
                if cell_idx >= offsets.len() {
                    break;
                }
                if offsets[cell_idx] > connectivity.len() as u64 {
                    break;
                }
                let end_idx = offsets[cell_idx] as usize;
                assert(forall|j: int|
                    0 <= j <= cell_idx ==> #[trigger] offsets@[j] <= connectivity@.len());
                assert(start_idx <= end_idx);
                let mut vertices: Vec<u32> = Vec::new();
                let mut k = start_idx;
                while k < end_idx
                    invariant
                        start_idx <= k <= end_idx <= connectivity@.len(),
                        vertices@ =~= connectivity@.subrange(start_idx as int, k as int).map_values(
                            |x: u64| x as u32,
                        ),
                    decreases end_idx - k,
                {
                    vertices.push(connectivity[k] as u32);
                    k = k + 1;
                }
                let item = (types[cell_idx], vertices);
                proof {
                    lemma_cell_data_view_push(cell_data@, item);
                }
                cell_data.push(item);
                assert(cell_data_view(cell_data@) + xml_cell_data(
                    types@,
                    connectivity@,
                    offsets@,
                    cell_idx + 1,
                    end_idx as int,
                ) =~= xml_cell_data(types@, connectivity@, offsets@, 0, 0));
                start_idx = end_idx;
                cell_idx = cell_idx + 1;
            }
            assert(cell_data_view(cell_data@) =~= xml_cell_data(
                types@,
                connectivity@,
                offsets@,
                0,
                0,
            ));
        },
    }
    cell_data
}

} // verus!

verus! {

/// The vertex-count rule of each cell type: vertices, lines, triangles,
/// quads, tetrahedra and quadratic triangles need exactly 1, 2, 3, 4, 4 and 6
/// vertices, a quadratic edge at least 3; other types take any number.
pub open spec fn spec_cell_vertices_valid(cell_type: CellType, n: int) -> bool {
    match cell_type {
        CellType::Vertex => n == 1,
        CellType::Line => n == 2,
        CellType::Triangle => n == 3,
        CellType::Quad => n == 4,
        CellType::Tetra => n == 4,
        CellType::QuadraticEdge => n >= 3,
        CellType::QuadraticTriangle => n == 6,
        CellType::Other(_) => true,
    }
}

/// Every cell satisfies its vertex-count rule.
pub open spec fn cells_valid(cd: Seq<(CellType, Seq<u32>)>) -> bool {
    forall|i: int| 0 <= i < cd.len() ==> spec_cell_vertices_valid(cd[i].0, cd[i].1.len() as int)
}

/// Rendering triangles of one cell: points, lines and quadratic edges give
/// none; a triangle itself; a quad `(0,1,2), (0,2,3)`; a tetrahedron its four
/// faces; a quadratic triangle its corner triangle; any other type its fan.
pub open spec fn cell_triangles(cell_type: CellType, v: Seq<u32>) -> Seq<u32> {
    match cell_type {
        CellType::Vertex => seq![],
        CellType::Line => seq![],
        CellType::QuadraticEdge => seq![],
        CellType::Triangle => v,
        CellType::Quad => seq![v[0], v[1], v[2], v[0], v[2], v[3]],
        CellType::Tetra => seq![
            v[0],
            v[1],
            v[2],
            v[0],
            v[2],
            v[3],
            v[0],
            v[3],
            v[1],
            v[1],
            v[3],
            v[2],
        ],
        CellType::QuadraticTriangle => v.subrange(0, 3),
        CellType::Other(_) => spec_fan(v),
    }
}

/// Triangle indices of all cells, in order.
pub open spec fn cells_indices(cd: Seq<(CellType, Seq<u32>)>) -> Seq<u32>
    decreases cd.len(),
{
    if cd.len() == 0 {
        seq![]
    } else {
        cells_indices(cd.drop_last()) + cell_triangles(cd.last().0, cd.last().1)
    }
}

/// For each triangle of [`cells_indices`], the index of its cell.
pub open spec fn cells_mapping(cd: Seq<(CellType, Seq<u32>)>) -> Seq<usize>
    decreases cd.len(),
{
    if cd.len() == 0 {
        seq![]
    } else {
        cells_mapping(cd.drop_last()) + repeat(
            (cd.len() - 1) as usize,
            (cell_triangles(cd.last().0, cd.last().1).len() / 3) as int,
        )
    }
}

/// Control points of the quadratic triangle cells, in order.
pub open spec fn cells_quadratic_triangles(cd: Seq<(CellType, Seq<u32>)>) -> Seq<Seq<u32>>
    decreases cd.len(),
{
    if cd.len() == 0 {
        seq![]
    } else {
        cells_quadratic_triangles(cd.drop_last()) + match cd.last().0 {
            CellType::QuadraticTriangle => seq![cd.last().1.subrange(0, 6)],
            _ => seq![],
        }
    }
}

/// Control points of the quadratic edge cells, in order.
pub open spec fn cells_quadratic_edges(cd: Seq<(CellType, Seq<u32>)>) -> Seq<Seq<u32>>
    decreases cd.len(),
{
    if cd.len() == 0 {
        seq![]
    } else {
        cells_quadratic_edges(cd.drop_last()) + match cd.last().0 {
            CellType::QuadraticEdge => seq![cd.last().1.subrange(0, 3)],
            _ => seq![],
        }
    }
}

/// Checks the vertex count of a cell against the expected count.
///
/// A cell whose count is wrong is invalid input: cell processing
/// ([`triangulate_cells`], and the per-cell step inside it) requires every
/// cell to pass this check (`cells_valid`), so a caller tests each cell with
/// [`cell_vertices_valid`] first and rejects the mesh, naming
/// `cell_type_name`, the count found and `expected`, when it fails.
pub fn validate_vertex_count(vertices: &[u32], expected: usize, cell_type_name: &str) -> (valid:
    bool)
    ensures
        valid == (vertices@.len() == expected),
{
    vertices.len() == expected
}

/// Checks a cell against the vertex-count rule of its type.
pub fn cell_vertices_valid(cell_type: CellType, vertices: &[u32]) -> (valid: bool)
    ensures
        valid == spec_cell_vertices_valid(cell_type, vertices@.len() as int),
{
    match cell_type {
        CellType::Vertex => validate_vertex_count(vertices, 1, "vertex"),
        CellType::Line => validate_vertex_count(vertices, 2, "line"),
        CellType::Triangle => validate_vertex_count(vertices, 3, "triangle"),
        CellType::Quad => validate_vertex_count(vertices, 4, "quad"),
        CellType::Tetra => validate_vertex_count(vertices, 4, "tetrahedron"),
        CellType::QuadraticEdge => vertices.len() >= 3,
        CellType::QuadraticTriangle => validate_vertex_count(vertices, 6, "quadratic triangle"),
        CellType::Other(_) => true,
    }
}

/// Appends all of `src` to `dst`.
fn extend_from(dst: &mut Vec<u32>, src: &[u32])
    ensures
        final(dst)@ == old(dst)@ + src@,
{
    let mut k: usize = 0;
    while k < src.len()
        invariant
            k <= src@.len(),
            dst@ =~= old(dst)@ + src@.subrange(0, k as int),
        decreases src@.len() - k,
    {
        dst.push(src[k]);
        k = k + 1;
    }
    assert(dst@ =~= old(dst)@ + src@);
}

/// Pads the mapping with `cell_idx` until it has one entry per triangle
/// added since `initial_index_count`.
fn validate_mapping(
    indices: &Vec<u32>,
    triangle_to_cell_mapping: &mut Vec<usize>,
    initial_index_count: usize,
    cell_idx: usize,
)
    requires
        initial_index_count <= indices@.len(),
        initial_index_count / 3 <= old(triangle_to_cell_mapping)@.len(),
    ensures
        ({
            let added = (indices@.len() - initial_index_count) / 3;
            let mapped = old(triangle_to_cell_mapping)@.len() - initial_index_count / 3;
            final(triangle_to_cell_mapping)@ == old(triangle_to_cell_mapping)@ + repeat(
                cell_idx,
                if added > mapped {
                    added - mapped
                } else {
                    0
                },
            )
        }),
{
    let triangles_added = (indices.len() - initial_index_count) / 3;
    let mappings_added = triangle_to_cell_mapping.len() - initial_index_count / 3;
    let ghost start = triangle_to_cell_mapping@;
    if triangles_added != mappings_added {
        while triangle_to_cell_mapping.len() - initial_index_count / 3 < triangles_added
            invariant
                initial_index_count / 3 <= start.len() <= triangle_to_cell_mapping@.len(),
                triangle_to_cell_mapping@.len() - initial_index_count / 3 <= if triangles_added
                    > mappings_added {
                    triangles_added
                } else {
                    mappings_added
                },
                mappings_added == start.len() - initial_index_count / 3,
                triangle_to_cell_mapping@ =~= start + repeat(
                    cell_idx,
                    triangle_to_cell_mapping@.len() - start.len(),
                ),
            decreases triangles_added - (triangle_to_cell_mapping@.len() - initial_index_count
                / 3),
        {
            triangle_to_cell_mapping.push(cell_idx);
        }
    }
    assert(triangle_to_cell_mapping@ =~= start + repeat(
        cell_idx,
        if triangles_added > mappings_added {
            triangles_added - mappings_added
        } else {
            0
        },
    ));
}

/// Triangulates one cell, appending its triangles, their cell mapping and
/// any quadratic element kept for subdivision.
fn process_cell(
    indices: &mut Vec<u32>,
    triangle_to_cell_mapping: &mut Vec<usize>,
    quadratic_triangles: &mut Vec<QuadraticTriangle>,
    quadratic_edges: &mut Vec<QuadraticEdge>,
    cell_idx: usize,
    cell_type: &CellType,
    vertices: &[u32],
)
    requires
        spec_cell_vertices_valid(*cell_type, vertices@.len() as int),
        old(indices)@.len() == 3 * old(triangle_to_cell_mapping)@.len(),
    ensures
        final(indices)@ == old(indices)@ + cell_triangles(*cell_type, vertices@),
        final(triangle_to_cell_mapping)@ == old(triangle_to_cell_mapping)@ + repeat(
            cell_idx,
            (cell_triangles(*cell_type, vertices@).len() / 3) as int,
        ),
        final(indices)@.len() == 3 * final(triangle_to_cell_mapping)@.len(),
        final(quadratic_triangles)@.map_values(|q: QuadraticTriangle| q.vertices@) == old(
            quadratic_triangles,
        )@.map_values(|q: QuadraticTriangle| q.vertices@) + match *cell_type {
            CellType::QuadraticTriangle => seq![vertices@.subrange(0, 6)],
            _ => seq![],
        },
        final(quadratic_edges)@.map_values(|q: QuadraticEdge| q.vertices@) == old(
            quadratic_edges,
        )@.map_values(|q: QuadraticEdge| q.vertices@) + match *cell_type {
            CellType::QuadraticEdge => seq![vertices@.subrange(0, 3)],
            _ => seq![],
        },
{
    let initial_index_count = indices.len();
    let ghost old_qt = quadratic_triangles@;
    let ghost old_qe = quadratic_edges@;
    match cell_type {
        CellType::Vertex => {},
        CellType::Line => {},
        CellType::Triangle => {
            extend_from(indices, vertices);
            triangle_to_cell_mapping.push(cell_idx);
        },
        CellType::Quad => {
            extend_from(indices, &[vertices[0], vertices[1], vertices[2]]);
            extend_from(indices, &[vertices[0], vertices[2], vertices[3]]);
            triangle_to_cell_mapping.push(cell_idx);
            triangle_to_cell_mapping.push(cell_idx);
        },
        CellType::Tetra => {
            extend_from(indices, &[vertices[0], vertices[1], vertices[2]]);
            extend_from(indices, &[vertices[0], vertices[2], vertices[3]]);
            extend_from(indices, &[vertices[0], vertices[3], vertices[1]]);
            extend_from(indices, &[vertices[1], vertices[3], vertices[2]]);
            push_repeated(triangle_to_cell_mapping, cell_idx, 4);
        },
        CellType::QuadraticEdge => {
            let quadratic_edge = QuadraticEdge::new([vertices[0], vertices[1], vertices[2]]);
            quadratic_edges.push(quadratic_edge);
            assert(quadratic_edge.vertices@ =~= vertices@.subrange(0, 3));
            assert(quadratic_edges@.map_values(|q: QuadraticEdge| q.vertices@) =~= old_qe.map_values(
                |q: QuadraticEdge| q.vertices@,
            ) + seq![vertices@.subrange(0, 3)]);
        },
        CellType::QuadraticTriangle => {
            process_quadratic_triangle(
                indices,
                triangle_to_cell_mapping,
                quadratic_triangles,
                cell_idx,
                vertices,
            );
            assert(vertices@.subrange(0, 6) =~= vertices@);
            assert(quadratic_triangles@.map_values(|q: QuadraticTriangle| q.vertices@)
                =~= old_qt.map_values(|q: QuadraticTriangle| q.vertices@) + seq![
                vertices@.subrange(0, 6),
            ]);
        },
        CellType::Other(_) => {
            if vertices.len() >= 3 {
                let fan_indices = triangulate_fan(vertices);
                extend_from(indices, fan_indices.as_slice());
                push_repeated(triangle_to_cell_mapping, cell_idx, vertices.len() - 2);
            }
        },
    }
    assert(indices@ =~= old(indices)@ + cell_triangles(*cell_type, vertices@));
    assert(triangle_to_cell_mapping@ =~= old(triangle_to_cell_mapping)@ + repeat(
        cell_idx,
        (cell_triangles(*cell_type, vertices@).len() / 3) as int,
    ));
    validate_mapping(indices, triangle_to_cell_mapping, initial_index_count, cell_idx);
    assert(triangle_to_cell_mapping@ =~= old(triangle_to_cell_mapping)@ + repeat(
        cell_idx,
        (cell_triangles(*cell_type, vertices@).len() / 3) as int,
    ));
    assert(quadratic_triangles@.map_values(|q: QuadraticTriangle| q.vertices@) =~= old_qt.map_values(
        |q: QuadraticTriangle| q.vertices@,
    ) + match *cell_type {
        CellType::QuadraticTriangle => seq![vertices@.subrange(0, 6)],
        _ => seq![],
    });
    assert(quadratic_edges@.map_values(|q: QuadraticEdge| q.vertices@) =~= old_qe.map_values(
        |q: QuadraticEdge| q.vertices@,
    ) + match *cell_type {
        CellType::QuadraticEdge => seq![vertices@.subrange(0, 3)],
        _ => seq![],
    });
}

/// Appends the corner triangle of a quadratic triangle and keeps all six
/// control points for subdivision.
fn process_quadratic_triangle(
    indices: &mut Vec<u32>,
    triangle_to_cell_mapping: &mut Vec<usize>,
    quadratic_triangles: &mut Vec<QuadraticTriangle>,
    cell_idx: usize,
    vertices: &[u32],
)
    requires
        vertices@.len() == 6,
    ensures
        final(indices)@ == old(indices)@ + vertices@.subrange(0, 3),
        final(triangle_to_cell_mapping)@ == old(triangle_to_cell_mapping)@.push(cell_idx),
        final(quadratic_triangles)@.len() == old(quadratic_triangles)@.len() + 1,
        forall|i: int|
            0 <= i < old(quadratic_triangles)@.len() ==> final(quadratic_triangles)@[i] == old(
                quadratic_triangles,
            )@[i],
        final(quadratic_triangles)@.last().vertices@ == vertices@,
{
    let quadratic_triangle = QuadraticTriangle::new(
        [vertices[0], vertices[1], vertices[2], vertices[3], vertices[4], vertices[5]],
    );
    let linear_triangle = quadratic_triangle.to_linear_triangle();
    extend_from(indices, &linear_triangle);
    triangle_to_cell_mapping.push(cell_idx);
    quadratic_triangles.push(quadratic_triangle);
    assert(quadratic_triangle.vertices@ =~= vertices@);
}

/// Converts a quadratic edge into two degenerate triangles (one per linear
/// segment) and keeps the edge for subdivision.
#[allow(dead_code)]
fn process_quadratic_edge(
    indices: &mut Vec<u32>,
    triangle_to_cell_mapping: &mut Vec<usize>,
    quadratic_edges: &mut Vec<QuadraticEdge>,
    cell_idx: usize,
    vertices: &[u32],
)
    requires
        vertices@.len() == 3,
    ensures
        final(indices)@ == old(indices)@ + seq![
            vertices@[0],
            vertices@[2],
            vertices@[2],
            vertices@[2],
            vertices@[1],
            vertices@[1],
        ],
        final(triangle_to_cell_mapping)@ == old(triangle_to_cell_mapping)@.push(cell_idx).push(
            cell_idx,
        ),
        final(quadratic_edges)@ == old(quadratic_edges)@.push(
            QuadraticEdge { vertices: final(quadratic_edges)@.last().vertices },
        ),
        final(quadratic_edges)@.last().vertices@ == vertices@,
{
    let quadratic_edge = QuadraticEdge::new([vertices[0], vertices[1], vertices[2]]);
    let linear_segments = quadratic_edge.to_linear_segments();
    quadratic_edges.push(quadratic_edge);
    let s0 = linear_segments[0];
    let s1 = linear_segments[1];
    extend_from(indices, &[s0[0], s0[1], s0[1]]);
    triangle_to_cell_mapping.push(cell_idx);
    extend_from(indices, &[s1[0], s1[1], s1[1]]);
    triangle_to_cell_mapping.push(cell_idx);
    assert(indices@ =~= old(indices)@ + seq![
        vertices@[0],
        vertices@[2],
        vertices@[2],
        vertices@[2],
        vertices@[1],
        vertices@[1],
    ]);
    assert(quadratic_edge.vertices@ =~= vertices@);
}

} // verus!

verus! {

/// Triangulates the cells of an unstructured grid.
///
/// Returns the triangle indices, the cell of each triangle, the quadratic
/// triangles and the quadratic edges (kept for subdivision), all in cell
/// order. Cell indices count the cells that were read (see
/// [`extract_cell_data`]).
pub fn triangulate_cells(cells: Cells) -> (res: (
    Vec<u32>,
    Vec<usize>,
    Vec<QuadraticTriangle>,
    Vec<QuadraticEdge>,
))
    requires
        cells_readable(cells),
        cells_valid(spec_cell_data(cells)),
    ensures
        res.0@ == cells_indices(spec_cell_data(cells)),
        res.1@ == cells_mapping(spec_cell_data(cells)),
        res.2@.map_values(|q: QuadraticTriangle| q.vertices@) == cells_quadratic_triangles(
            spec_cell_data(cells),
        ),
        res.3@.map_values(|q: QuadraticEdge| q.vertices@) == cells_quadratic_edges(
            spec_cell_data(cells),
        ),
{
    let mut indices: Vec<u32> = Vec::new();
    let mut triangle_to_cell_mapping: Vec<usize> = Vec::new();
    let mut quadratic_triangles: Vec<QuadraticTriangle> = Vec::new();
    let mut quadratic_edges: Vec<QuadraticEdge> = Vec::new();
    let ghost cd = spec_cell_data(cells);
    let cell_data = extract_cell_data(cells);
    let mut cell_idx: usize = 0;
    assert(cd.take(0) =~= Seq::<(CellType, Seq<u32>)>::empty());
    assert(quadratic_triangles@.map_values(|q: QuadraticTriangle| q.vertices@) =~= Seq::<
        Seq<u32>,
    >::empty());
    assert(quadratic_edges@.map_values(|q: QuadraticEdge| q.vertices@) =~= Seq::<
        Seq<u32>,
    >::empty());
    while cell_idx < cell_data.len()
        invariant
            cell_data_view(cell_data@) == cd,
            cells_valid(cd),
            cell_idx <= cell_data@.len(),
            indices@.len() == 3 * triangle_to_cell_mapping@.len(),
            indices@ == cells_indices(cd.take(cell_idx as int)),
            triangle_to_cell_mapping@ == cells_mapping(cd.take(cell_idx as int)),
            quadratic_triangles@.map_values(|q: QuadraticTriangle| q.vertices@)
                == cells_quadratic_triangles(cd.take(cell_idx as int)),
            quadratic_edges@.map_values(|q: QuadraticEdge| q.vertices@) == cells_quadratic_edges(
                cd.take(cell_idx as int),
            ),
        decreases cell_data@.len() - cell_idx,
    {
        let ghost prefix = cd.take(cell_idx + 1);
        assert(prefix.drop_last() =~= cd.take(cell_idx as int));
        assert(prefix.last() == cd[cell_idx as int]);
        assert(cd[cell_idx as int] == (cell_data@[cell_idx as int].0, cell_data@[cell_idx as int].1@));
        let cell_type = cell_data[cell_idx].0;
        process_cell(
            &mut indices,
            &mut triangle_to_cell_mapping,
            &mut quadratic_triangles,
            &mut quadratic_edges,
            cell_idx,
            &cell_type,
            cell_data[cell_idx].1.as_slice(),
        );
        cell_idx = cell_idx + 1;
    }
    assert(cd.take(cell_data@.len() as int) =~= cd);
    (indices, triangle_to_cell_mapping, quadratic_triangles, quadratic_edges)
}

} // verus!
