use mesh_viz::lod::clustering::rebuild_clustered_triangles;

#[test]
fn repeated_and_degenerate_triangles_are_dropped() {
    let indices = vec![0, 1, 2, 1, 2, 3, 2, 1, 0, 0, 0, 1];
    let out = rebuild_clustered_triangles(&indices, &vec![0, 1, 2, 3], &vec![true; 4], 10);
    assert_eq!(out, vec![0, 1, 2, 1, 2, 3]);
}

#[test]
fn rebuilding_stops_at_the_target() {
    let indices = vec![0, 1, 2, 1, 2, 3];
    let out = rebuild_clustered_triangles(&indices, &vec![0, 1, 2, 3], &vec![true; 2], 1);
    assert_eq!(out, vec![0, 1, 2]);
    // A zero target still lets the first kept triangle through.
    let out = rebuild_clustered_triangles(&indices, &vec![0, 1, 2, 3], &vec![true; 2], 0);
    assert_eq!(out, vec![0, 1, 2]);
}

#[test]
fn small_triangles_are_dropped() {
    let indices = vec![0, 1, 2, 1, 2, 3];
    let out = rebuild_clustered_triangles(&indices, &vec![0, 1, 2, 3], &vec![false, true], 10);
    assert_eq!(out, vec![1, 2, 3]);
}

#[test]
fn clustered_vertices_are_renumbered() {
    let indices = vec![0, 1, 2, 1, 2, 3];
    let out = rebuild_clustered_triangles(&indices, &vec![0, 0, 1, 2], &vec![true, true], 10);
    assert_eq!(out, vec![0, 1, 2]);
}

#[test]
fn no_corner_set_appears_twice() {
    // Vertices 0 and 3 fall into one cluster, so the second and fourth
    // triangles become copies of the first with their corners reordered.
    let indices = vec![0, 1, 2, 3, 2, 1, 4, 5, 6, 2, 3, 1];
    let out = rebuild_clustered_triangles(&indices, &vec![0, 1, 2, 0, 4, 5, 6], &vec![true; 4], 10);
    assert_eq!(out, vec![0, 1, 2, 4, 5, 6]);
    let mut keys: Vec<[u32; 3]> = out
        .chunks(3)
        .map(|t| {
            let mut k = [t[0], t[1], t[2]];
            k.sort();
            k
        })
        .collect();
    let n = keys.len();
    keys.sort();
    keys.dedup();
    assert_eq!(keys.len(), n);
}
