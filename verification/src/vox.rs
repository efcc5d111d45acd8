//! MagicaVoxel model meshing: the voxel-space greedy mesher, the axis remap
//! of `.vox` models and the palette atlas.

pub mod mesh;
pub mod remap;
pub mod palette;
pub mod loader;
