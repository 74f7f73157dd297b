use mesh_viz::mesh::triangulation::{
    cell_vertices_valid, cells_in_order, extract_cell_data, triangulate_cells, triangulate_fan, triangulate_polygon,
    validate_vertex_count,
};
use mesh_viz::mesh::vtk::{process_polydata, CellType, Cells, VertexNumbers};
use mesh_viz::mesh::VtkError;

#[test]
fn fan_of_square_gives_two_triangles() {
    assert_eq!(triangulate_fan(&[10, 11, 12, 13]), vec![10, 11, 12, 10, 12, 13]);
}

#[test]
fn fan_of_pentagon_gives_three_triangles() {
    assert_eq!(
        triangulate_fan(&[0, 1, 2, 3, 4]),
        vec![0, 1, 2, 0, 2, 3, 0, 3, 4]
    );
}

#[test]
fn fan_of_triangle_is_itself() {
    assert_eq!(triangulate_fan(&[5, 6, 7]), vec![5, 6, 7]);
}

#[test]
fn fan_of_fewer_than_three_is_empty() {
    assert!(triangulate_fan(&[]).is_empty());
    assert!(triangulate_fan(&[1, 2]).is_empty());
}

#[test]
fn polygon_legacy_layout() {
    // A triangle, a quad, and a two-vertex polygon that is skipped.
    let topo = VertexNumbers::Legacy {
        num_cells: 3,
        vertices: vec![3, 0, 1, 2, 4, 2, 3, 4, 5, 2, 7, 8],
    };
    let (indices, mapping) = triangulate_polygon(topo);
    assert_eq!(indices, vec![0, 1, 2, 2, 3, 4, 2, 4, 5]);
    assert_eq!(mapping, vec![0, 1, 1]);
}

#[test]
fn polygon_xml_layout_goes_through_legacy_conversion() {
    // Same cells in the XML layout: converted by vtkio into the legacy one.
    let topo = VertexNumbers::XML {
        connectivity: vec![0, 1, 2, 2, 3, 4, 5],
        offsets: vec![3, 7],
    };
    let (indices, mapping) = triangulate_polygon(topo);
    assert_eq!(indices, vec![0, 1, 2, 2, 3, 4, 2, 4, 5]);
    assert_eq!(mapping, vec![0, 1, 1]);
}

#[test]
fn xml_into_legacy_prefixes_counts() {
    let topo = VertexNumbers::XML {
        connectivity: vec![4, 5, 6, 7, 8],
        offsets: vec![2, 5],
    };
    let (n, data) = topo.into_legacy();
    assert_eq!(n, 2);
    assert_eq!(data, vec![2, 4, 5, 3, 6, 7, 8]);
}

#[test]
fn legacy_into_legacy_is_unchanged() {
    let topo = VertexNumbers::Legacy { num_cells: 1, vertices: vec![3, 9, 8, 7] };
    let (n, data) = topo.into_legacy();
    assert_eq!(n, 1);
    assert_eq!(data, vec![3, 9, 8, 7]);
}

#[test]
fn polydata_with_polygons() {
    let polys = VertexNumbers::Legacy { num_cells: 1, vertices: vec![4, 0, 1, 2, 3] };
    let (indices, mapping) = process_polydata(Some(polys)).unwrap();
    assert_eq!(indices, vec![0, 1, 2, 0, 2, 3]);
    assert_eq!(mapping, vec![0, 0]);
}

#[test]
fn polydata_without_polygons_is_missing_data() {
    match process_polydata(None) {
        Err(VtkError::MissingData(msg)) => assert_eq!(msg, "No surface geometry found in the fragment"),
        other => panic!("unexpected result: {:?}", other),
    }
}

#[test]
fn polydata_with_only_degenerate_polygons_is_missing_data() {
    let polys = VertexNumbers::Legacy { num_cells: 1, vertices: vec![2, 0, 1] };
    assert!(matches!(process_polydata(Some(polys)), Err(VtkError::MissingData(_))));
}

#[test]
fn vertex_count_validation() {
    assert!(validate_vertex_count(&[1, 2, 3], 3, "triangle"));
    assert!(!validate_vertex_count(&[1, 2], 3, "triangle"));
}

#[test]
fn cell_vertex_rules() {
    assert!(cell_vertices_valid(CellType::Vertex, &[0]));
    assert!(!cell_vertices_valid(CellType::Vertex, &[0, 1]));
    assert!(cell_vertices_valid(CellType::Line, &[0, 1]));
    assert!(cell_vertices_valid(CellType::Triangle, &[0, 1, 2]));
    assert!(!cell_vertices_valid(CellType::Triangle, &[0, 1, 2, 3]));
    assert!(cell_vertices_valid(CellType::Quad, &[0, 1, 2, 3]));
    assert!(cell_vertices_valid(CellType::Tetra, &[0, 1, 2, 3]));
    assert!(!cell_vertices_valid(CellType::Tetra, &[0, 1, 2]));
    assert!(cell_vertices_valid(CellType::QuadraticEdge, &[0, 1, 2]));
    assert!(cell_vertices_valid(CellType::QuadraticEdge, &[0, 1, 2, 3]));
    assert!(!cell_vertices_valid(CellType::QuadraticEdge, &[0, 1]));
    assert!(cell_vertices_valid(CellType::QuadraticTriangle, &[0, 1, 2, 3, 4, 5]));
    assert!(!cell_vertices_valid(CellType::QuadraticTriangle, &[0, 1, 2]));
    assert!(cell_vertices_valid(CellType::Other(7), &[]));
}

#[test]
fn cell_data_from_legacy_cells() {
    let cells = Cells {
        cell_verts: VertexNumbers::Legacy { num_cells: 2, vertices: vec![3, 0, 1, 2, 2, 3, 4] },
        types: vec![CellType::Triangle, CellType::Line],
    };
    let data = extract_cell_data(cells);
    assert_eq!(data.len(), 2);
    assert_eq!(data[0].0, CellType::Triangle);
    assert_eq!(data[0].1, vec![0, 1, 2]);
    assert_eq!(data[1].0, CellType::Line);
    assert_eq!(data[1].1, vec![3, 4]);
}

#[test]
fn cell_data_from_xml_cells() {
    let cells = Cells {
        cell_verts: VertexNumbers::XML { connectivity: vec![0, 1, 2, 3, 4, 5, 6], offsets: vec![4, 7] },
        types: vec![CellType::Quad, CellType::Triangle],
    };
    let data = extract_cell_data(cells);
    assert_eq!(data.len(), 2);
    assert_eq!(data[0].1, vec![0, 1, 2, 3]);
    assert_eq!(data[1].1, vec![4, 5, 6]);
}

#[test]
fn cells_of_every_kind_are_triangulated() {
    let cells = Cells {
        cell_verts: VertexNumbers::Legacy {
            num_cells: 7,
            vertices: vec![
                1, 0, // vertex
                2, 0, 1, // line
                3, 0, 1, 2, // triangle
                4, 0, 1, 2, 3, // quad
                4, 0, 1, 2, 3, // tetra
                6, 0, 1, 2, 3, 4, 5, // quadratic triangle
                3, 6, 7, 8, // quadratic edge
            ],
        },
        types: vec![
            CellType::Vertex,
            CellType::Line,
            CellType::Triangle,
            CellType::Quad,
            CellType::Tetra,
            CellType::QuadraticTriangle,
            CellType::QuadraticEdge,
        ],
    };
    let (indices, mapping, quadratic_triangles, quadratic_edges) = triangulate_cells(cells);
    assert_eq!(
        indices,
        vec![
            0, 1, 2, // triangle
            0, 1, 2, 0, 2, 3, // quad
            0, 1, 2, 0, 2, 3, 0, 3, 1, 1, 3, 2, // tetra faces
            0, 1, 2, // quadratic triangle corners
        ]
    );
    assert_eq!(mapping, vec![2, 3, 3, 4, 4, 4, 4, 5]);
    assert_eq!(quadratic_triangles.len(), 1);
    assert_eq!(quadratic_triangles[0].vertices, [0, 1, 2, 3, 4, 5]);
    assert_eq!(quadratic_edges.len(), 1);
    assert_eq!(quadratic_edges[0].vertices, [6, 7, 8]);
}

#[test]
fn other_cells_are_fan_triangulated() {
    let cells = Cells {
        cell_verts: VertexNumbers::Legacy { num_cells: 1, vertices: vec![5, 0, 1, 2, 3, 4] },
        types: vec![CellType::Other(7)],
    };
    let (indices, mapping, qts, qes) = triangulate_cells(cells);
    assert_eq!(indices, vec![0, 1, 2, 0, 2, 3, 0, 3, 4]);
    assert_eq!(mapping, vec![0, 0, 0]);
    assert!(qts.is_empty());
    assert!(qes.is_empty());
}

#[test]
fn xml_layouts_that_convert_to_legacy() {
    assert!(VertexNumbers::Legacy { num_cells: 1, vertices: vec![9] }.is_convertible());
    assert!(VertexNumbers::XML { connectivity: vec![0, 1, 2], offsets: vec![3] }.is_convertible());
    assert!(VertexNumbers::XML { connectivity: vec![], offsets: vec![] }.is_convertible());
    // An offset beyond the connectivity array.
    assert!(!VertexNumbers::XML { connectivity: vec![0, 1, 2], offsets: vec![4] }.is_convertible());
    // Decreasing offsets.
    assert!(!VertexNumbers::XML { connectivity: vec![0, 1, 2], offsets: vec![2, 1] }.is_convertible());
    // A point index that does not fit in 32 bits.
    assert!(!VertexNumbers::XML { connectivity: vec![0, 5_000_000_000], offsets: vec![2] }.is_convertible());
    // Only indices inside the cells are looked at.
    assert!(VertexNumbers::XML { connectivity: vec![0, 5_000_000_000], offsets: vec![1] }.is_convertible());
}

#[test]
fn cells_are_in_order_unless_a_read_cell_ends_before_it_starts() {
    let legacy = Cells {
        cell_verts: VertexNumbers::Legacy { num_cells: 1, vertices: vec![1, 0] },
        types: vec![CellType::Vertex],
    };
    assert!(cells_in_order(&legacy));
    let reversed = Cells {
        cell_verts: VertexNumbers::XML { connectivity: vec![0, 1, 2], offsets: vec![3, 2] },
        types: vec![CellType::Triangle, CellType::Vertex],
    };
    assert!(!cells_in_order(&reversed));
    // The second cell is never read when there is only one type.
    let short = Cells {
        cell_verts: VertexNumbers::XML { connectivity: vec![0, 1, 2], offsets: vec![3, 2] },
        types: vec![CellType::Triangle],
    };
    assert!(cells_in_order(&short));
    // Reading stops at a cell that runs past the connectivity array.
    let past_end = Cells {
        cell_verts: VertexNumbers::XML { connectivity: vec![0, 1, 2], offsets: vec![3, 9, 1] },
        types: vec![CellType::Triangle, CellType::Vertex, CellType::Vertex],
    };
    assert!(cells_in_order(&past_end));
    assert_eq!(extract_cell_data(past_end).len(), 1);
}
