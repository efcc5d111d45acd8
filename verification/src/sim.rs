//! The simulation layer: layered spatial index with reservations, zones
//! around appliances, local navigation and the service slots of appliances.

pub mod small_lists;
pub mod world;
pub mod select;
pub mod components;
pub mod slot_spawn;
pub mod customer_ai;
pub mod staff_ai;
pub mod kitchen_workflow;
pub mod register_workflow;
pub mod local_nav;
pub mod zone_helpers;
pub mod interaction;
pub mod construction;
pub mod movement;
