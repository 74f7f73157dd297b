use mesh_viz::lod::qem::{build_edges, qem_collapse_budget, update_vertex_edges, QemEdge, QemTopology, QemTriangle};
use mesh_viz::lod::{LODLevel, LODManager};

fn manager() -> LODManager<&'static str> {
    LODManager::new("full", Some("half"), Some("quarter"))
}

#[test]
fn levels_finest_first() {
    assert_eq!(LODLevel::all_levels(), vec![LODLevel::LOD0, LODLevel::LOD1, LODLevel::LOD2]);
    assert_eq!(LODLevel::LOD0.index(), 0);
    assert_eq!(LODLevel::LOD2.index(), 2);
}

#[test]
fn new_manager_shows_the_finest_level() {
    let m = manager();
    assert_eq!(m.current_lod, LODLevel::LOD0);
    assert!(!m.needs_update);
    assert_eq!(m.current_lod_data(), Some(&"full"));
    assert_eq!(m.lod_meshes, vec![Some("full"), Some("half"), Some("quarter")]);
}

#[test]
fn selection_takes_the_finest_level_within_its_threshold() {
    let m = manager();
    assert_eq!(m.select_lod_by_distance([true, true, true]), LODLevel::LOD0);
    assert_eq!(m.select_lod_by_distance([false, true, true]), LODLevel::LOD1);
    assert_eq!(m.select_lod_by_distance([false, false, true]), LODLevel::LOD2);
    assert_eq!(m.select_lod_by_distance([false, false, false]), LODLevel::LOD2);
}

#[test]
fn selection_skips_missing_levels() {
    let m: LODManager<&str> = LODManager::new("full", None, Some("quarter"));
    assert_eq!(m.select_lod_by_distance([false, true, true]), LODLevel::LOD2);
    let m: LODManager<&str> = LODManager::new("full", None, None);
    // The coarsest level is chosen even though it does not exist.
    assert_eq!(m.select_lod_by_distance([false, true, true]), LODLevel::LOD2);
}

#[test]
fn update_reports_changes_once() {
    let mut m = manager();
    assert!(!m.update_lod([true, true, true]));
    assert!(m.update_lod([false, true, true]));
    assert_eq!(m.current_lod, LODLevel::LOD1);
    assert!(m.needs_update);
    assert_eq!(m.current_lod_data(), Some(&"half"));
    assert!(!m.update_lod([false, true, true]));
    m.mark_updated();
    assert!(!m.needs_update);
}

#[test]
fn moving_away_never_selects_a_finer_level() {
    let m = manager();
    // Thresholds grow with the level, so a far camera is within fewer of them.
    let near = m.select_lod_by_distance([false, true, true]);
    let far = m.select_lod_by_distance([false, false, true]);
    assert!(near.index() <= far.index());
}

#[test]
fn missing_current_level_has_no_data() {
    let mut m: LODManager<&str> = LODManager::new("full", None, None);
    assert!(m.update_lod([false, false, true]));
    assert_eq!(m.current_lod, LODLevel::LOD2);
    assert_eq!(m.current_lod_data(), None);
}

fn tri(a: usize, b: usize, c: usize) -> QemTriangle {
    QemTriangle { vertices: [a, b, c], is_deleted: false }
}

fn edge(v0: usize, v1: usize) -> QemEdge {
    QemEdge { v0, v1, is_deleted: false }
}

#[test]
fn edges_are_listed_once_in_first_occurrence_order() {
    let (edges, tris) = build_edges(&vec![tri(0, 1, 2), tri(2, 0, 3)]);
    assert_eq!(edges, vec![edge(0, 1), edge(1, 2), edge(0, 2), edge(0, 3), edge(2, 3)]);
    assert_eq!(tris, vec![vec![0], vec![0], vec![0, 1], vec![1], vec![1]]);
}

#[test]
fn degenerate_triangles_list_an_edge_twice() {
    let (edges, tris) = build_edges(&vec![tri(4, 5, 4)]);
    assert_eq!(edges, vec![edge(4, 5), edge(4, 4)]);
    assert_eq!(tris, vec![vec![0, 0], vec![0]]);
}

#[test]
fn vertex_edge_lists() {
    let edges = vec![edge(0, 1), QemEdge { v0: 1, v1: 2, is_deleted: true }, edge(2, 2), edge(1, 2)];
    let lists = update_vertex_edges(3, &edges);
    assert_eq!(lists, vec![vec![0], vec![0, 3], vec![2, 2, 3]]);
}

#[test]
fn topology_from_indices() {
    let topo = QemTopology::from_indices(4, &vec![0, 1, 2, 0, 2, 3, 9]);
    assert_eq!(topo.triangles, vec![tri(0, 1, 2), tri(0, 2, 3)]);
    assert_eq!(topo.vertex_deleted, vec![false; 4]);
    assert_eq!(topo.edges, vec![edge(0, 1), edge(1, 2), edge(0, 2), edge(2, 3), edge(0, 3)]);
    assert_eq!(topo.edge_triangles, vec![vec![0], vec![0], vec![0, 1], vec![1], vec![1]]);
    assert_eq!(topo.vertex_edges, vec![vec![0, 2, 4], vec![0, 1], vec![1, 2, 3], vec![3, 4]]);
    assert_eq!(topo.triangle_count(), 2);
}

/// A square `0 1 2 3` around a centre vertex 4.
fn square_fan() -> QemTopology {
    QemTopology::from_indices(5, &vec![0, 1, 4, 1, 2, 4, 2, 3, 4, 3, 0, 4])
}

#[test]
fn collapsing_an_edge_merges_its_endpoints() {
    let mut topo = square_fan();
    assert_eq!(topo.edges[1], edge(1, 4));
    assert!(topo.collapse_edge(1));
    assert_eq!(
        topo.triangles,
        vec![
            QemTriangle { vertices: [0, 1, 1], is_deleted: true },
            QemTriangle { vertices: [1, 2, 1], is_deleted: true },
            tri(2, 3, 1),
            tri(3, 0, 1),
        ]
    );
    assert_eq!(topo.triangle_count(), 2);
    assert_eq!(topo.vertex_deleted, vec![false, false, false, false, true]);
    assert!(topo.edges[1].is_deleted);
    assert_eq!(topo.edges[2], edge(0, 1));
    assert_eq!(topo.edges[4], edge(2, 1));
    assert_eq!(topo.edges[6], edge(3, 1));
    // No live edge still touches the removed vertex.
    for e in &topo.edges {
        assert!(e.is_deleted || (e.v0 != 4 && e.v1 != 4));
    }
    assert!(topo.vertex_edges[4].is_empty());
}

#[test]
fn collapsing_a_removed_edge_does_nothing() {
    let mut topo = square_fan();
    assert!(topo.collapse_edge(1));
    let before = topo.triangles.clone();
    assert!(!topo.collapse_edge(1));
    assert_eq!(topo.triangles, before);
}

#[test]
fn collapse_turning_an_edge_into_a_loop_removes_it() {
    // Triangle 0 1 2: collapsing 0-1 moves edge 1-2 onto 0-2, next to the
    // existing edge 0-2; collapsing that one makes the moved copy 0-0.
    let mut topo = QemTopology::from_indices(3, &vec![0, 1, 2]);
    assert!(topo.collapse_edge(0));
    assert_eq!(topo.edges[1], edge(0, 2));
    assert_eq!(topo.triangle_count(), 0);
    assert!(topo.collapse_edge(2));
    assert!(topo.edges[1].is_deleted);
}

#[test]
fn compaction_renumbers_surviving_vertices() {
    let mut topo = square_fan();
    topo.collapse_edge(1);
    let compacted = topo.compact();
    assert_eq!(compacted.vertex_map, vec![Some(0), Some(1), Some(2), Some(3), None]);
    assert_eq!(compacted.indices, vec![2, 3, 1, 3, 0, 1]);
    assert_eq!(compacted.triangle_to_cell_mapping, vec![0, 1]);
}

#[test]
fn compaction_drops_triangles_with_removed_corners() {
    let mut topo = QemTopology::from_indices(4, &vec![0, 1, 2, 1, 3, 2]);
    topo.vertex_deleted[0] = true;
    let compacted = topo.compact();
    assert_eq!(compacted.vertex_map, vec![None, Some(0), Some(1), Some(2)]);
    assert_eq!(compacted.indices, vec![0, 2, 1]);
    assert_eq!(compacted.triangle_to_cell_mapping, vec![0]);
}

#[test]
fn collapse_budget_is_the_shortfall_capped_at_half() {
    assert_eq!(qem_collapse_budget(100, 50), 50);
    assert_eq!(qem_collapse_budget(100, 75), 25);
    assert_eq!(qem_collapse_budget(100, 10), 50);
    assert_eq!(qem_collapse_budget(10, 20), 0);
    assert_eq!(qem_collapse_budget(0, 0), 0);
}
