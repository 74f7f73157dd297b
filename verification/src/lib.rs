//! Mesh topology processing for a scientific visualization tool: VTK cell
//! triangulation, mesh subdivision, higher-order conversion, per-vertex colour
//! source selection, level-of-detail bookkeeping and time-series playback.
pub mod animation;
pub mod lod;
pub mod mesh;
