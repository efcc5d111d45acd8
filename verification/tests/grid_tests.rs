use bse::base::components::{get_footprint, ApplianceGeometry, GridDirection, TableState};
use bse::base::world::{GridOccupancy, WorldGridMap};
use bse::logic::dev_systems::{
    bind_new_chairs_system, handle_demolish_appliance as demolish_on_map, handle_place_chair, handle_place_table,
    handle_spawn_staff_requests, try_place,
};
use bse::sim::components::{get_footprint as sim_footprint, ApplianceGeometry as SimGeometry};
use bse::sim::construction::{handle_demolish_appliance, place_appliance, place_on_layer, ApplianceKind, PlacedAppliance};
use bse::sim::world::{CellIntent, GridLayer, GridLayers, ReserveResult};

#[test]
fn new_map_is_empty_and_bounded() {
    let m = WorldGridMap::new(4, 3);
    assert_eq!(m.occupancy.len(), 12);
    assert!(m.is_walkable(3, 2));
    assert!(!m.is_walkable(4, 0));
    assert!(!m.is_walkable(0, -1));
    assert_eq!(m.get_occupancy(5, 5), None);
}

#[test]
fn set_then_get_reads_back() {
    let mut m = WorldGridMap::new(4, 4);
    m.set_occupancy(2, 1, GridOccupancy::Occupied);
    assert_eq!(m.get_occupancy(2, 1), Some(GridOccupancy::Occupied));
    assert_eq!(m.get_occupancy(1, 2), Some(GridOccupancy::Empty));
    assert!(!m.is_walkable(2, 1));
    m.set_occupancy(9, 9, GridOccupancy::Occupied);
    assert_eq!(m.occupancy.iter().filter(|&&o| o == GridOccupancy::Occupied).count(), 1);
}

#[test]
fn fill_and_clear_area() {
    let mut m = WorldGridMap::new(5, 5);
    let cells = [(1, 1), (2, 1), (7, 7)];
    assert!(m.is_area_empty(&cells[..2]));
    assert!(!m.is_area_empty(&cells));
    m.fill_area(&cells, GridOccupancy::Occupied);
    assert!(!m.is_area_empty(&cells[..1]));
    m.clear_area(&cells);
    assert!(m.is_area_empty(&cells[..2]));
}

#[test]
fn rotation_and_offsets() {
    let mut d = GridDirection::PosZ;
    for _ in 0..4 {
        d = d.rotate_cw();
    }
    assert_eq!(d, GridDirection::PosZ);
    assert_eq!(GridDirection::PosZ.rotate_cw(), GridDirection::NegX);
    assert_eq!(GridDirection::NegX.facing_offset(), (-1, 0));
    assert_eq!(GridDirection::actual_dimensions(2, 1, GridDirection::PosX), (1, 2));
    assert_eq!(GridDirection::actual_dimensions(2, 1, GridDirection::NegZ), (2, 1));
}

#[test]
fn footprint_grows_by_facing() {
    let g = ApplianceGeometry { base_width: 2, base_depth: 1, direction: GridDirection::PosZ };
    assert_eq!(get_footprint(&g, (3, 4)), vec![(3, 4), (4, 4)]);
    let g = ApplianceGeometry { base_width: 2, base_depth: 1, direction: GridDirection::NegZ };
    assert_eq!(get_footprint(&g, (3, 4)), vec![(2, 4), (3, 4)]);
    let g = ApplianceGeometry { base_width: 2, base_depth: 1, direction: GridDirection::PosX };
    assert_eq!(get_footprint(&g, (3, 4)), vec![(3, 3), (3, 4)]);
    let g = ApplianceGeometry { base_width: 0, base_depth: 1, direction: GridDirection::PosX };
    assert!(get_footprint(&g, (3, 4)).is_empty());
}

#[test]
fn sim_footprint_maps_right_and_forward() {
    let g = SimGeometry { right: 2, forward: 1, direction: GridDirection::NegX };
    assert_eq!(sim_footprint(&g, (5, 5)), vec![(5, 5), (5, 6)]);
}

#[test]
fn sim_footprint_grows_forward_and_right() {
    let g = SimGeometry { right: 1, forward: 2, direction: GridDirection::PosX };
    assert_eq!(sim_footprint(&g, (0, 0)), vec![(0, 0), (1, 0)]);
    let g = SimGeometry { right: 2, forward: 1, direction: GridDirection::PosX };
    assert_eq!(sim_footprint(&g, (0, 0)), vec![(0, -1), (0, 0)]);
    let g = SimGeometry { right: 2, forward: 2, direction: GridDirection::NegZ };
    assert_eq!(sim_footprint(&g, (5, 5)), vec![(4, 4), (4, 5), (5, 4), (5, 5)]);
    let g = SimGeometry { right: 1, forward: 2, direction: GridDirection::NegX };
    assert_eq!(sim_footprint(&g, (5, 5)), vec![(4, 5), (5, 5)]);
}

#[test]
fn default_table_is_empty() {
    assert_eq!(TableState::default(), TableState::Empty);
}

#[test]
fn place_then_demolish_restores_map() {
    let mut m = WorldGridMap::new(6, 6);
    let before = m.occupancy.clone();
    let placed = handle_place_table(&mut m, (1, 1), GridDirection::PosZ).unwrap();
    assert_eq!(placed, vec![(1, 1), (2, 1)]);
    assert!(handle_place_chair(&mut m, (2, 1), GridDirection::PosZ).is_none());
    let g = ApplianceGeometry { base_width: 2, base_depth: 1, direction: GridDirection::PosZ };
    let k = demolish_on_map(&mut m, (2, 1), &[((0, 5), g), ((1, 1), g)]);
    assert_eq!(k, Some(1));
    assert_eq!(m.occupancy, before);
}

#[test]
fn try_place_refuses_out_of_grid() {
    let mut m = WorldGridMap::new(3, 3);
    let g = ApplianceGeometry { base_width: 2, base_depth: 1, direction: GridDirection::PosZ };
    assert!(try_place(&mut m, (2, 0), g).is_none());
    assert!(m.is_walkable(2, 0));
}

#[test]
fn staff_spawn_needs_walkable_cell() {
    let mut m = WorldGridMap::new(3, 3);
    m.set_occupancy(1, 1, GridOccupancy::Occupied);
    assert!(handle_spawn_staff_requests(&m, 0, 0));
    assert!(!handle_spawn_staff_requests(&m, 1, 1));
    assert!(!handle_spawn_staff_requests(&m, -1, 0));
}

#[test]
fn chair_binds_to_faced_table() {
    let g = ApplianceGeometry { base_width: 2, base_depth: 1, direction: GridDirection::PosZ };
    let tables = [((0, 0), g), ((4, 4), g)];
    assert_eq!(bind_new_chairs_system((5, 3), GridDirection::PosZ, &tables), Some(1));
    assert_eq!(bind_new_chairs_system((5, 3), GridDirection::NegZ, &tables), None);
}

#[test]
fn layers_start_empty() {
    let g = GridLayers::new(4, 4);
    assert!(g.is_walkable(0, 0));
    assert_eq!(g.floor_entity_at(1, 1), None);
    assert!(!g.is_walkable(4, 0));
}

#[test]
fn floor_placement_is_all_or_nothing() {
    let mut g = GridLayers::new(4, 4);
    assert!(g.try_place_floor(&[(0, 0), (1, 0)], 7));
    assert!(!g.try_place_floor(&[(2, 0), (1, 0)], 8));
    assert_eq!(g.floor_entity_at(2, 0), None);
    assert_eq!(g.floor_entity_at(1, 0), Some(7));
    assert_eq!(g.floor_neighbors(1, 1), vec![7]);
    g.remove_floor(&[(0, 0), (1, 0)], 7);
    assert!(g.is_walkable(0, 0));
}

#[test]
fn ceiling_and_surface_layers() {
    let mut g = GridLayers::new(3, 3);
    assert!(g.try_place_ceiling((1, 1), 5));
    assert!(!g.try_place_ceiling((1, 1), 6));
    assert!(g.is_walkable(1, 1));
    assert!(g.add_surface((1, 1), 9));
    assert!(g.add_surface((1, 1), 9));
    g.remove_surface((1, 1), 9);
    g.remove_ceiling((1, 1), 5);
    assert!(g.try_place_ceiling((1, 1), 6));
}

#[test]
fn reserve_release_and_permanent() {
    let mut g = GridLayers::new(3, 3);
    assert!(g.reserve_cell(1, 1, 4));
    assert!(!g.reserve_cell(1, 1, 5));
    assert!(!g.is_walkable(1, 1));
    assert!(g.is_walkable_for(1, 1, 4));
    assert!(!g.is_walkable_for(1, 1, 5));
    g.release_cell(1, 1, 5);
    assert!(!g.is_walkable(1, 1));
    g.release_cell(1, 1, 4);
    assert!(g.is_walkable(1, 1));
    assert!(g.reserve_cell(0, 0, 4));
    assert!(g.reserve_cell(2, 2, 4));
    g.release_all(4);
    assert!(g.is_walkable(0, 0) && g.is_walkable(2, 2));
}

#[test]
fn timed_reservations_expire_and_permanent_stay() {
    let mut g = GridLayers::new(3, 3);
    assert_eq!(g.try_reserve(0, 0, 1, CellIntent::Transient, Some(2)), ReserveResult::Claimed);
    assert_eq!(g.try_reserve(1, 0, 1, CellIntent::Transient, Some(2)), ReserveResult::Claimed);
    assert!(g.make_permanent(1, 0, 1));
    assert!(!g.make_permanent(2, 0, 1));
    g.tick_reservations();
    assert!(!g.is_walkable(0, 0));
    g.tick_reservations();
    assert!(g.is_walkable(0, 0));
    assert!(!g.is_walkable(1, 0));
}

#[test]
fn reservation_priority_decides() {
    let mut g = GridLayers::new(3, 3);
    assert_eq!(g.try_reserve(1, 1, 2, CellIntent::Intend, Some(3)), ReserveResult::Claimed);
    assert_eq!(g.try_reserve(1, 1, 3, CellIntent::Occupy, Some(3)), ReserveResult::Preempted(2));
    assert_eq!(g.try_reserve(1, 1, 2, CellIntent::Transient, Some(3)), ReserveResult::Blocked);
    assert_eq!(g.try_reserve(1, 1, 3, CellIntent::Intend, Some(3)), ReserveResult::Claimed);
    assert_eq!(g.try_reserve(2, 2, 3, CellIntent::Intend, None), ReserveResult::Blocked);
    assert_eq!(g.try_reserve(9, 9, 3, CellIntent::Occupy, Some(1)), ReserveResult::Blocked);
}

#[test]
fn building_on_the_layers() {
    let mut g = GridLayers::new(6, 6);
    let cells = place_appliance(&mut g, ApplianceKind::Register, (1, 1), GridDirection::PosZ, 10).unwrap();
    assert_eq!(cells, vec![(1, 1), (2, 1)]);
    assert!(place_appliance(&mut g, ApplianceKind::Chair, (2, 1), GridDirection::PosZ, 11).is_none());
    assert!(place_on_layer(&mut g, GridLayer::Surface, &[(2, 1)], 12));
    assert!(!place_on_layer(&mut g, GridLayer::Ceiling, &[], 13));
    let built = [PlacedAppliance { entity: 10, cells: cells.clone(), layer: GridLayer::Floor }];
    assert_eq!(handle_demolish_appliance(&mut g, (2, 1), &built), Some(0));
    assert_eq!(g.floor_entity_at(1, 1), None);
    assert_eq!(handle_demolish_appliance(&mut g, (5, 5), &built), None);
}
