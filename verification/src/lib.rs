//! Grid, placement, voxel-model and simulation logic for a small restaurant
//! management game, with the behaviour of each operation stated as a
//! contract and checked by Verus.

pub mod base;
pub mod model;
pub mod greedy;
pub mod vox;
pub mod sim;
pub mod logic;
