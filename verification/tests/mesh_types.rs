use mesh_viz::mesh::cell_colors::cell_color_sources;
use mesh_viz::mesh::wave::{grid_line_indices, grid_triangle_indices};
use mesh_viz::mesh::{MeshTopology, QuadraticEdge, QuadraticTriangle, VtkError};

#[test]
fn quadratic_edge_parts() {
    let e = QuadraticEdge::new([4, 9, 6]);
    assert_eq!(e.vertices, [4, 9, 6]);
    assert_eq!(e.endpoints(), [4, 9]);
    assert_eq!(e.midpoint(), 6);
    assert_eq!(e.to_linear_segments(), [[4, 6], [6, 9]]);
}

#[test]
fn quadratic_triangle_parts() {
    let t = QuadraticTriangle::new([0, 1, 2, 10, 11, 12]);
    assert_eq!(t.corner_vertices(), [0, 1, 2]);
    assert_eq!(t.edge_midpoints(), [10, 11, 12]);
    assert_eq!(t.all_vertices(), [0, 1, 2, 10, 11, 12]);
    assert_eq!(t.to_linear_triangle(), [0, 1, 2]);
}

#[test]
fn topology_builders() {
    let topo = MeshTopology::new(5, vec![0, 1, 2])
        .add_triangle_to_cell_mapping(vec![3])
        .add_quadratic_triangles(vec![QuadraticTriangle::new([0, 1, 2, 3, 4, 5])])
        .add_quadratic_edges(vec![QuadraticEdge::new([0, 1, 4])]);
    assert_eq!(topo.num_vertices, 5);
    assert_eq!(topo.indices, vec![0, 1, 2]);
    assert_eq!(topo.triangle_to_cell_mapping, Some(vec![3]));
    assert_eq!(topo.quadratic_triangles.as_ref().map(|v| v.len()), Some(1));
    assert_eq!(topo.quadratic_edges.as_ref().map(|v| v[0].vertices), Some([0, 1, 4]));
}

#[test]
fn io_errors_convert_into_vtk_errors() {
    let io = std::io::Error::new(std::io::ErrorKind::NotFound, "missing file");
    let e: VtkError = VtkError::from(io);
    match e {
        VtkError::IoError(inner) => assert_eq!(inner.kind(), std::io::ErrorKind::NotFound),
        other => panic!("unexpected: {:?}", other),
    }
}

#[test]
fn cell_colors_follow_the_last_triangle_of_each_vertex() {
    // Two triangles sharing the edge 1-2, mapped to cells 0 and 1.
    let indices = vec![0, 1, 2, 1, 3, 2];
    let sources = cell_color_sources(&indices, 5, &Some(vec![0, 1]), 2);
    assert_eq!(sources, vec![Some(0), Some(1), Some(1), Some(1), None]);
}

#[test]
fn cell_colors_skip_cells_without_a_colour() {
    let indices = vec![0, 1, 2, 1, 3, 2];
    let sources = cell_color_sources(&indices, 4, &Some(vec![0, 5]), 2);
    assert_eq!(sources, vec![Some(0), Some(0), Some(0), None]);
}

#[test]
fn cell_colors_without_mapping_use_triangle_order() {
    let indices = vec![0, 1, 2, 1, 3, 2];
    assert_eq!(
        cell_color_sources(&indices, 4, &None, 2),
        vec![Some(0), Some(1), Some(1), Some(1)]
    );
    // Only one colour: the second triangle keeps its default colours.
    assert_eq!(
        cell_color_sources(&indices, 4, &None, 1),
        vec![Some(0), Some(0), Some(0), None]
    );
}

#[test]
fn grid_of_three_by_two_vertices() {
    assert_eq!(
        grid_triangle_indices(3, 2),
        vec![0, 3, 1, 1, 3, 4, 1, 4, 2, 2, 4, 5]
    );
}

#[test]
fn grid_of_two_by_three_vertices() {
    assert_eq!(
        grid_triangle_indices(2, 3),
        vec![0, 2, 1, 1, 2, 3, 2, 4, 3, 3, 4, 5]
    );
}

#[test]
fn grid_with_a_single_row_has_no_triangles() {
    assert!(grid_triangle_indices(5, 1).is_empty());
    assert!(grid_triangle_indices(1, 5).is_empty());
}

#[test]
fn grid_triangle_count() {
    assert_eq!(grid_triangle_indices(64, 64).len(), 6 * 63 * 63);
}

#[test]
fn grid_line_indices_are_consecutive() {
    assert_eq!(grid_line_indices(1), vec![0, 1, 2, 3, 4, 5, 6, 7]);
    assert_eq!(grid_line_indices(0), vec![0, 1, 2, 3]);
}
