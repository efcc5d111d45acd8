//! Shared grid-world vocabulary: appliance geometry and the occupancy map.

pub mod components;
pub mod world;
