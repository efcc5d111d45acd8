//! The service loop on the occupancy map: paths, navigation, movement, the
//! customer lifecycle and developer placement tools.

pub mod pathfinding;
pub mod navigation_cmd;
pub mod movement;
pub mod customer_lifecycle;
pub mod dev_systems;
