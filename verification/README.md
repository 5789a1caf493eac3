# medusa_threed

Verified core of the medusa 3-D engine, written in Verus.

- `src/` is the library. Every function there carries a contract that
  Verus proves. Coordinates are carried as the bit patterns of `f32`
  values, so the library works on plain integers: STL encoding, mesh export
  request checks, PCD decoding (binary header and points, ASCII line
  splitting, colour fields), grid-mesh numbering and faces, triangulation
  vertex numbering, voxel de-duplication, the display-size sampling plan,
  slice discovery order, slice-image error categories, the scan progress
  stream, and the launcher's command line and ready line.
- `app/` is the host program: command line, socket, ready line, shutdown
  signals, file I/O, and the floating-point geometry (Delaunay
  triangulation, grid binning, statistics, resampling, profile conversion,
  scale policy, face normals), which calls into the library for everything
  else.
- `tests/` exercise the library on concrete values.
