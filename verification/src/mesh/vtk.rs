//! VTK cell data as plain values, and the VTK-specific topology steps.
use crate::mesh::error::VtkError;
use crate::mesh::triangulation::{polygon_indices, polygon_mapping, triangulate_polygon};
use vstd::prelude::*;

verus! {

/// Where an attribute is attached.
#[derive(Debug, Clone, Copy, PartialEq, Eq, Hash)]
pub enum AttributeLocation {
    /// One value per point.
    Point,
    /// One value per cell.
    Cell,
}

/// The cell types that the triangulation tells apart; every other VTK cell
/// type is `Other`, with its VTK type code.
#[derive(Debug, Clone, Copy, PartialEq, Eq)]
pub enum CellType {
    Vertex,
    Line,
    Triangle,
    Quad,
    Tetra,
    QuadraticEdge,
    QuadraticTriangle,
    Other(u8),
}

/// Cell vertex lists, in either of the two VTK layouts.
#[derive(Debug, Clone)]
pub enum VertexNumbers {
    /// Each cell is written as `n i_1 ... i_n`.
    Legacy { num_cells: u32, vertices: Vec<u32> },
    /// All cells' point lists concatenated, with the end offset of each cell.
    XML { connectivity: Vec<u64>, offsets: Vec<u64> },
}

/// Cells with their types.
#[derive(Debug, Clone)]
pub struct Cells {
    pub cell_verts: VertexNumbers,
    pub types: Vec<CellType>,
}

/// Start offset of cell `c` in an XML connectivity array.
pub open spec fn xml_cell_start(offsets: Seq<u64>, c: int) -> int {
    if c <= 0 {
        0
    } else {
        offsets[c - 1] as int
    }
}

/// The legacy vertex list (`n i_1 ... i_n` per cell) equivalent to an XML
/// connectivity/offsets pair.
pub open spec fn legacy_from_xml(connectivity: Seq<u64>, offsets: Seq<u64>) -> Seq<u32>
    decreases offsets.len(),
{
    if offsets.len() == 0 {
        seq![]
    } else {
        let c = offsets.len() - 1;
        let start = xml_cell_start(offsets, c);
        let end = offsets[c] as int;
        legacy_from_xml(connectivity, offsets.drop_last()) + seq![(end - start) as u32]
            + connectivity.subrange(start, end).map_values(|x: u64| x as u32)
    }
}

/// An XML layout converts to the legacy one without overflow: the offsets
/// never decrease, stay within the connectivity array and fit in 32 bits, and
/// so do the cell count and the referenced point indices.
pub open spec fn xml_converts_to_legacy(connectivity: Seq<u64>, offsets: Seq<u64>) -> bool {
    &&& offsets.len() <= u32::MAX
    &&& forall|i: int| 0 <= i < offsets.len() ==> offsets[i] <= connectivity.len()
    &&& forall|i: int| 0 <= i < offsets.len() ==> offsets[i] <= u32::MAX
    &&& forall|i: int, j: int| 0 <= i <= j < offsets.len() ==> offsets[i] <= offsets[j]
    &&& forall|k: int|
        0 <= k < connectivity.len() && (offsets.len() > 0 && k < offsets.last()) ==> connectivity[k]
            <= u32::MAX
}

/// `vtkio`'s `VertexNumbers::into_legacy` on an XML layout: it returns the
/// number of cells and, for each cell, its size followed by its point indices
/// (as the crate documents and its source shows). It panics on the inputs
/// that `xml_converts_to_legacy` excludes.
#[verifier::external_body]
fn xml_into_legacy(connectivity: Vec<u64>, offsets: Vec<u64>) -> (legacy: (u32, Vec<u32>))
    requires
        xml_converts_to_legacy(connectivity@, offsets@),
    ensures
        legacy.0 == offsets@.len(),
        legacy.1@ == legacy_from_xml(connectivity@, offsets@),
{
    vtkio::model::VertexNumbers::XML { connectivity, offsets }.into_legacy()
}

impl VertexNumbers {
    /// The layout can be converted to the legacy one.
    pub open spec fn convertible(&self) -> bool {
        match self {
            VertexNumbers::Legacy { .. } => true,
            VertexNumbers::XML { connectivity, offsets } => xml_converts_to_legacy(
                connectivity@,
                offsets@,
            ),
        }
    }

    /// The legacy form: number of cells and `n i_1 ... i_n` per cell.
    pub open spec fn spec_legacy(&self) -> (u32, Seq<u32>) {
        match self {
            VertexNumbers::Legacy { num_cells, vertices } => (*num_cells, vertices@),
            VertexNumbers::XML { connectivity, offsets } => (
                offsets@.len() as u32,
                legacy_from_xml(connectivity@, offsets@),
            ),
        }
    }

    /// Whether the layout can be converted to the legacy one (see
    /// `xml_converts_to_legacy`); the legacy layout always can.
    pub fn is_convertible(&self) -> (ok: bool)
        ensures
            ok == self.convertible(),
    {
        match self {
            VertexNumbers::Legacy { .. } => true,
            VertexNumbers::XML { connectivity, offsets } => {
                let n = offsets.len();
                if n > 0xffff_ffff {
                    return false;
                }
                let conn_len = connectivity.len();
                let mut prev: u64 = 0;
                let mut i: usize = 0;
                while i < n
                    invariant
                        self.convertible() == xml_converts_to_legacy(connectivity@, offsets@),
                        n == offsets@.len(),
                        conn_len == connectivity@.len(),
                        i <= n,
                        forall|j: int| 0 <= j < i ==> #[trigger] offsets@[j] <= conn_len && offsets@[j] <= u32::MAX,
                        forall|a: int, b: int| 0 <= a <= b < i ==> offsets@[a] <= offsets@[b],
                        i > 0 ==> prev == offsets@[i - 1],
                        i == 0 ==> prev == 0,
                    decreases n - i,
                {
                    let o = offsets[i];
                    if o as u128 > conn_len as u128 || o > 0xffff_ffff {
                        assert(!(offsets@[i as int] <= connectivity@.len() && offsets@[i as int] <= u32::MAX));
                        assert(!xml_converts_to_legacy(connectivity@, offsets@));
                        assert(!self.convertible());
                        return false;
                    }
                    if o < prev {
                        assert(i > 0);
                        assert(offsets@[i - 1] > offsets@[i as int]);
                        assert(!xml_converts_to_legacy(connectivity@, offsets@));
                        assert(!self.convertible());
                        return false;
                    }
                    prev = o;
                    i = i + 1;
                }
                if n > 0 {
                    let last = offsets[n - 1] as usize;
                    let mut k: usize = 0;
                    while k < last
                        invariant
                            self.convertible() == xml_converts_to_legacy(connectivity@, offsets@),
                            n == offsets@.len(),
                            n > 0,
                            last == offsets@.last(),
                            last <= connectivity@.len(),
                            k <= last,
                            forall|j: int| 0 <= j < k ==> #[trigger] connectivity@[j] <= u32::MAX,
                        decreases last - k,
                    {
                        if connectivity[k] > 0xffff_ffff {
                            assert(k < connectivity@.len() && k < offsets@.last());
                            assert(!xml_converts_to_legacy(connectivity@, offsets@));
                        assert(!self.convertible());
                            return false;
                        }
                        k = k + 1;
                    }
                }
                assert(xml_converts_to_legacy(connectivity@, offsets@));
                assert(self.convertible());
                true
            },
        }
    }

    /// Converts the vertex numbers into the legacy layout.
    pub fn into_legacy(self) -> (legacy: (u32, Vec<u32>))
        requires
            self.convertible(),
        ensures
            legacy.0 == self.spec_legacy().0,
            legacy.1@ == self.spec_legacy().1,
    {
        match self {
            VertexNumbers::Legacy { num_cells, vertices } => (num_cells, vertices),
            VertexNumbers::XML { connectivity, offsets } => xml_into_legacy(connectivity, offsets),
        }
    }
}

/// Triangulates the polygons of a poly-data piece. Vertices, lines and
/// strips form no surface and are left out, so only the polygons are read.
/// Fails with `MissingData` exactly when no triangle comes out.
pub fn process_polydata(polys: Option<VertexNumbers>) -> (res: Result<
    (Vec<u32>, Vec<usize>),
    VtkError,
>)
    requires
        polys matches Some(p) ==> p.convertible(),
    ensures
        ({
            let (num_cells, data) = match polys {
                Some(p) => p.spec_legacy(),
                None => (0u32, Seq::<u32>::empty()),
            };
            let indices = polygon_indices(data, 0, num_cells as int);
            let mapping = polygon_mapping(data, 0, num_cells as int);
            match res {
                Ok((i, m)) => indices.len() > 0 && i@ == indices && m@ == mapping,
                Err(e) => indices.len() == 0 && e == VtkError::MissingData(
                    "No surface geometry found in the fragment",
                ),
            }
        }),
{
    let mut indices: Vec<u32> = Vec::new();
    let mut triangle_to_cell_mapping: Vec<usize> = Vec::new();
    if let Some(polys) = polys {
        let (mut polys_indices, mut polys_mapping) = triangulate_polygon(polys);
        indices.append(&mut polys_indices);
        triangle_to_cell_mapping.append(&mut polys_mapping);
    }
    if indices.len() == 0 {
        return Err(VtkError::MissingData("No surface geometry found in the fragment"));
    }
    Ok((indices, triangle_to_cell_mapping))
}

} // verus!
