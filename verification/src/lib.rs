//! Verified core of the medusa 3-D engine: binary STL encoding, mesh export
//! request checks, point-cloud file decoding, grid and triangulation mesh
//! topology, voxel de-duplication, profile point selection, the
//! display-size sampling plan, scan discovery and progress, and the
//! launcher's command line.
//!
//! Coordinates are carried as the IEEE-754 bit patterns of `f32` values
//! (`u32`), so every function here works on plain integers; the arithmetic
//! on the coordinates themselves is done by the caller.

pub mod bytes;
pub mod decimal;
pub mod grid;
pub mod launcher;
pub mod mesh_service;
pub mod pcd;
pub mod profile;
pub mod scan;
pub mod scan_service;
pub mod service;
pub mod statistics;
pub mod stl;
pub mod triangulation;
pub mod voxel;
