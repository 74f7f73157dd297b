# mesh_viz

Mesh processing for a desktop viewer of VTK data, written in Verus: the
index-level work is implemented as verified Rust whose contracts state what
each function returns, and the rendering application around it is ordinary
Rust.

## Layout

- `src/` — the verified library
  - `mesh/vtk.rs`, `mesh/triangulation.rs` — cell layouts (legacy and XML),
    reading cells, fan/polygon/cell triangulation with the triangle-to-cell
    mapping; conversion of XML layouts goes through `vtkio`
  - `mesh/edge_midpoints.rs`, `mesh/subdivision.rs`, `mesh/higher_order.rs` —
    1-to-4 subdivision of linear and quadratic meshes and second-order
    conversion, with shared edge midpoints
  - `mesh/cell_colors.rs` — which cell colours which vertex
  - `mesh/wave.rs` — index buffers of regular grids
  - `mesh/properties.rs` — properties spanning several operations
  - `lod.rs`, `lod/qem.rs`, `lod/clustering.rs` — level selection, the
    connectivity of edge-collapse simplification and vertex clustering
  - `animation.rs` — time-series loading steps and playback cursor
- `tests/` — executable tests of the library
- `app/` — the Bevy/egui application: file I/O, rendering, UI, and the
  floating-point work (positions, colours, quadric errors)
