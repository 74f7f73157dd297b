use mesh_viz::mesh::edge_midpoints::EdgeMidpoints;
use mesh_viz::mesh::higher_order::{
    convert_to_higher_order, convert_to_second_order, generate_higher_order_triangle_mapping,
};
use mesh_viz::mesh::subdivision::{
    expand_cell_attribute_for_subdivision, generate_default_triangle_mapping,
    generate_subdivided_triangle_mapping, subdivide_mesh, VertexSource,
};
use mesh_viz::mesh::{MeshTopology, QuadraticEdge, QuadraticTriangle, VtkError};

fn ts(triangle: usize, r: u8, s: u8) -> VertexSource {
    VertexSource::TriangleSample { triangle, r, s }
}

#[test]
fn subdividing_one_triangle_gives_four() {
    let topo = MeshTopology::new(3, vec![0, 1, 2]);
    let refined = subdivide_mesh(&topo).unwrap();
    assert_eq!(
        refined.topology.indices,
        vec![0, 3, 5, 3, 1, 4, 5, 4, 2, 3, 4, 5]
    );
    assert_eq!(refined.topology.num_vertices, 6);
    assert_eq!(refined.midpoint_base, 3);
    assert_eq!(refined.midpoint_edges, vec![(0, 1), (1, 2), (0, 2)]);
    assert_eq!(
        refined.new_vertices,
        vec![
            VertexSource::EdgeMidpoint(0, 1),
            VertexSource::EdgeMidpoint(1, 2),
            VertexSource::EdgeMidpoint(0, 2),
        ]
    );
    assert_eq!(refined.topology.triangle_to_cell_mapping, Some(vec![0, 0, 0, 0]));
    assert!(refined.topology.quadratic_triangles.is_none());
    assert!(refined.topology.quadratic_edges.is_none());
}

#[test]
fn neighbouring_triangles_share_the_midpoint_of_their_edge() {
    let topo = MeshTopology::new(4, vec![0, 1, 2, 0, 2, 3]);
    let refined = subdivide_mesh(&topo).unwrap();
    // Edges (0,1) (1,2) (0,2) (2,3) (0,3): five midpoints, not six.
    assert_eq!(refined.midpoint_edges, vec![(0, 1), (1, 2), (0, 2), (2, 3), (0, 3)]);
    assert_eq!(refined.topology.num_vertices, 9);
    assert_eq!(
        refined.topology.indices,
        vec![
            0, 4, 6, 4, 1, 5, 6, 5, 2, 4, 5, 6, // first triangle
            0, 6, 8, 6, 2, 7, 8, 7, 3, 6, 7, 8, // second triangle
        ]
    );
    assert_eq!(
        refined.topology.triangle_to_cell_mapping,
        Some(vec![0, 0, 0, 0, 1, 1, 1, 1])
    );
    for &i in &refined.topology.indices {
        assert!((i as usize) < refined.topology.num_vertices);
    }
}

#[test]
fn subdivision_keeps_the_cell_mapping() {
    let topo = MeshTopology::new(3, vec![0, 1, 2]).add_triangle_to_cell_mapping(vec![7]);
    let refined = subdivide_mesh(&topo).unwrap();
    assert_eq!(refined.topology.triangle_to_cell_mapping, Some(vec![7, 7, 7, 7]));
}

#[test]
fn subdividing_a_non_triangular_index_list_fails() {
    let topo = MeshTopology::new(3, vec![0, 1, 2, 0]);
    match subdivide_mesh(&topo) {
        Err(VtkError::InvalidFormat(msg)) => assert_eq!(msg, "Mesh must be triangular"),
        other => panic!("unexpected: {:?}", other.map(|r| r.topology.indices)),
    }
}

#[test]
fn subdividing_a_quadratic_triangle_uses_its_shape() {
    let topo = MeshTopology::new(6, vec![0, 1, 2])
        .add_quadratic_triangles(vec![QuadraticTriangle::new([0, 1, 2, 3, 4, 5])]);
    let refined = subdivide_mesh(&topo).unwrap();
    assert_eq!(refined.topology.indices, vec![0, 6, 8, 6, 1, 7, 8, 7, 2, 6, 7, 8]);
    assert_eq!(refined.midpoint_base, 6);
    assert_eq!(refined.topology.num_vertices, 18);
    assert_eq!(
        refined.new_vertices,
        vec![
            ts(0, 2, 0),
            ts(0, 2, 2),
            ts(0, 0, 2),
            ts(0, 1, 0),
            ts(0, 3, 0),
            ts(0, 3, 1),
            ts(0, 1, 3),
            ts(0, 0, 3),
            ts(0, 0, 1),
            ts(0, 2, 1),
            ts(0, 1, 2),
            ts(0, 1, 1),
        ]
    );
    let qts = refined.topology.quadratic_triangles.unwrap();
    let got: Vec<[u32; 6]> = qts.iter().map(|q| q.vertices).collect();
    assert_eq!(
        got,
        vec![
            [0, 6, 8, 9, 17, 14],
            [6, 1, 7, 10, 11, 15],
            [8, 7, 2, 16, 12, 13],
            [6, 7, 8, 15, 16, 17],
        ]
    );
    assert_eq!(refined.topology.triangle_to_cell_mapping, Some(vec![0, 0, 0, 0]));
}

#[test]
fn subdividing_quadratic_edges_splits_each_in_two() {
    let topo = MeshTopology::new(3, vec![])
        .add_quadratic_edges(vec![QuadraticEdge::new([0, 1, 2])]);
    let refined = subdivide_mesh(&topo).unwrap();
    let qes = refined.topology.quadratic_edges.unwrap();
    let got: Vec<[u32; 3]> = qes.iter().map(|q| q.vertices).collect();
    assert_eq!(got, vec![[0, 2, 3], [2, 1, 4]]);
    assert_eq!(
        refined.new_vertices,
        vec![
            VertexSource::EdgeSample { edge: 0, r: 1 },
            VertexSource::EdgeSample { edge: 0, r: 3 },
        ]
    );
    assert_eq!(refined.topology.num_vertices, 5);
    assert!(refined.topology.indices.is_empty());
}

#[test]
fn quadratic_edges_and_linear_triangles_together() {
    let topo = MeshTopology::new(4, vec![0, 1, 3])
        .add_quadratic_edges(vec![QuadraticEdge::new([0, 1, 2])]);
    let refined = subdivide_mesh(&topo).unwrap();
    // Edge samples take vertices 4 and 5, so midpoints start at 6.
    assert_eq!(refined.midpoint_base, 6);
    assert_eq!(refined.topology.indices, vec![0, 6, 8, 6, 1, 7, 8, 7, 3, 6, 7, 8]);
    assert_eq!(refined.topology.num_vertices, 9);
    assert_eq!(refined.new_vertices[0], VertexSource::EdgeSample { edge: 0, r: 1 });
    assert_eq!(refined.new_vertices[2], VertexSource::EdgeMidpoint(0, 1));
}

#[test]
fn subdivided_mapping_repeats_each_cell_four_times() {
    assert_eq!(generate_subdivided_triangle_mapping(&[3, 1]), vec![3, 3, 3, 3, 1, 1, 1, 1]);
    assert!(generate_subdivided_triangle_mapping(&[]).is_empty());
}

#[test]
fn default_mapping_repeats_each_triangle_four_times() {
    assert_eq!(generate_default_triangle_mapping(2), vec![0, 0, 0, 0, 1, 1, 1, 1]);
    assert!(generate_default_triangle_mapping(0).is_empty());
}

#[test]
fn cell_attributes_are_repeated() {
    let data = vec![1.5f32, -2.0];
    assert_eq!(expand_cell_attribute_for_subdivision(&data, 4), vec![1.5, 1.5, 1.5, 1.5, -2.0, -2.0, -2.0, -2.0]);
    let colours = vec![vec![1u8, 2], vec![3]];
    assert_eq!(
        expand_cell_attribute_for_subdivision(&colours, 2),
        vec![vec![1, 2], vec![1, 2], vec![3], vec![3]]
    );
    assert!(expand_cell_attribute_for_subdivision(&data, 0).is_empty());
}

#[test]
fn second_order_of_two_triangles() {
    let topo = MeshTopology::new(4, vec![0, 1, 2, 0, 2, 3]);
    let refined = convert_to_second_order(&topo).unwrap();
    assert_eq!(refined.topology.indices, vec![0, 1, 2, 4, 5, 6, 0, 2, 3, 6, 7, 8]);
    assert_eq!(refined.topology.num_vertices, 9);
    assert_eq!(refined.midpoint_edges, vec![(0, 1), (1, 2), (0, 2), (2, 3), (0, 3)]);
    assert_eq!(
        refined.topology.triangle_to_cell_mapping,
        Some(vec![0, 0, 0, 0, 1, 1, 1, 1])
    );
    // Subdivision of the same mesh creates the same midpoints.
    let sub = subdivide_mesh(&topo).unwrap();
    assert_eq!(sub.midpoint_edges, refined.midpoint_edges);
    assert_eq!(sub.new_vertices, refined.new_vertices);
}

#[test]
fn second_order_requires_triangles() {
    let topo = MeshTopology::new(2, vec![0, 1]);
    assert!(matches!(
        convert_to_second_order(&topo),
        Err(VtkError::InvalidFormat("Mesh must be triangular"))
    ));
}

#[test]
fn higher_order_checks_the_order() {
    let topo = MeshTopology::new(3, vec![0, 1, 2]);
    assert!(matches!(
        convert_to_higher_order(&topo, 1),
        Err(VtkError::InvalidFormat("Order must be >= 2"))
    ));
    assert!(matches!(
        convert_to_higher_order(&topo, 3),
        Err(VtkError::UnsupportedDataType)
    ));
    let refined = convert_to_higher_order(&topo, 2).unwrap();
    assert_eq!(refined.topology.indices, vec![0, 1, 2, 3, 4, 5]);
}

#[test]
fn higher_order_mapping() {
    assert_eq!(generate_higher_order_triangle_mapping(2), vec![0, 0, 0, 0, 1, 1, 1, 1]);
}

#[test]
fn midpoint_lookup_in_either_direction_is_stable() {
    let mut table = EdgeMidpoints::new(10);
    assert_eq!(table.get_or_create(3, 1), (10, true));
    assert_eq!(table.get_or_create(1, 3), (10, false));
    assert_eq!(table.get_or_create(1, 2), (11, true));
    assert_eq!(table.get_or_create(3, 1), (10, false));
    assert_eq!(table.into_edges(), vec![(1, 3), (1, 2)]);
}
