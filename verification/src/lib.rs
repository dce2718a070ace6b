//! A voxel universe on a torus: a graph-based lattice of unit cubes in which
//! every cell carries links to its six face neighbors, so wraparound — and,
//! in principle, any topology — falls out of graph traversal instead of
//! coordinate arithmetic.
//!
//! The library holds the verified core: the voxel graph and its torus
//! generator (`world`), the cell-by-cell raycaster (`ray`), the player
//! controller with movement, gravity, rebasing and block edits (`camera`),
//! and the per-pixel color resolution (`render`). All geometry runs in
//! fixed-point arithmetic at the scale set in `num`; a frontend supplies the
//! window, the input state, the trigonometric look basis, and the parallel
//! fan-out over pixels.

pub mod camera;
pub mod num;
pub mod ray;
pub mod render;
pub mod world;
