use std::collections::VecDeque;

use bse::base::components::{ChairState, GridDirection, GridPosition, PathQueue, SegmentEnd, TableState, EXIT_POSITION};
use bse::base::world::{GridOccupancy, WorldGridMap};
use bse::logic::customer_lifecycle::{
    cleanup_table_system, customer_arrive_at_seat_system, customer_eating_system, customer_exit_and_despawn_system,
    customer_find_seat_system, ChairSeat, EatingStep, SeatAssignment,
};
use bse::logic::movement::universal_agent_move_system;
use bse::logic::navigation_cmd::{navigate_to, plan_route};
use bse::logic::pathfinding::{compute_agent_path, goal_heuristic, grid_successors};
use bse::sim::components::{ApplianceGeometry, CustomerPhase, StaffPhase};
use bse::sim::customer_ai::{
    cleanup_tables, customer_arrive_at_queue, customer_arrive_at_seat, customer_eating, customer_exit, customer_find_seat,
    food_arrived, AfterEating, QueueSlotView, RegisterView, SeatArrival, SeatCandidate, SlotChoice,
};
use bse::sim::interaction::{affected_entities, compute_adjacent_cells, compute_front_cells, refresh_interaction_points_on_grid_change, InteractionRule};
use bse::sim::kitchen_workflow::{staff_cooking_system, staff_deliver_system, staff_pickup_system, CookingStep, StoveZone, TableZone};
use bse::sim::local_nav::{bfs_closer, direction_toward, local_step, StepResult};
use bse::sim::movement::agent_movement_tick;
use bse::sim::register_workflow::{
    customer_arrive_at_register_system, register_queue_zone, register_staff_zone, staff_checkout_system, update_register_zones,
    CheckoutStep, RegisterLine,
};
use bse::sim::select::{first_min, manhattan_distance, nearest_cell};
use bse::sim::slot_spawn::{
    ensure_next_queue_slot, insert_checkout_offset, insert_cook_offset, insert_deliver_offset, insert_queue_offset,
    insert_sit_offset, queue_cell, reindex_queue_slots, shrink_queue_slots, spawn_table_slots,
};
use bse::sim::staff_ai::{
    staff_arrive_at_checkout, staff_arrive_at_stove, staff_checkout_start, staff_checkout_tick, staff_cooking, staff_deliver,
    staff_pickup, Assignment, CheckoutSlot, DeliverSlot, FreeSlot, QueueEntry, SlotArrival, StaffMember,
};
use bse::sim::world::{CellIntent, GridLayers, ReserveResult};
use bse::sim::zone_helpers::{adjacent_cells, clamp, front_cells};

fn geo(right: i32, direction: GridDirection) -> ApplianceGeometry {
    ApplianceGeometry { right, forward: 1, direction }
}

#[test]
fn first_min_takes_the_earliest_smallest() {
    assert_eq!(first_min(&[5, 3, 3, 9], &[true, true, true, true], None), Some(1));
    assert_eq!(first_min(&[5, 3, 3, 9], &[true, false, true, true], None), Some(2));
    assert_eq!(first_min(&[5, 3], &[true, true], Some(3)), None);
    assert_eq!(first_min(&[], &[], None), None);
    assert_eq!(manhattan_distance((i32::MIN, 0), (i32::MAX, 0)), u32::MAX as u64);
    assert_eq!(nearest_cell((0, 0), &[(3, 1), (-2, 2), (1, -3)], &[true, true, true], None), Some(0));
}

#[test]
fn seat_choice_prefers_nearest_empty_table() {
    let seats = [
        SeatCandidate { slot: 1, chair: (1, 0), table: Some(TableState::Occupied) },
        SeatCandidate { slot: 2, chair: (5, 5), table: Some(TableState::Empty) },
        SeatCandidate { slot: 3, chair: (2, 2), table: Some(TableState::Empty) },
        SeatCandidate { slot: 4, chair: (0, 4), table: Some(TableState::Empty) },
    ];
    assert_eq!(customer_find_seat((0, 0), &seats), Some(SlotChoice { slot: 3, target: (2, 2) }));
    assert_eq!(customer_find_seat((0, 0), &seats[..1]), None);
}

#[test]
fn arriving_customer_orders() {
    assert_eq!(
        customer_arrive_at_seat(CustomerPhase::Entering, Some(TableState::Empty)),
        Some(SeatArrival { order_table: true, next: CustomerPhase::WaitingForFood })
    );
    assert_eq!(customer_arrive_at_seat(CustomerPhase::Leaving, Some(TableState::Empty)), None);
    assert!(food_arrived(CustomerPhase::WaitingForFood, Some(TableState::Served)));
    assert!(!food_arrived(CustomerPhase::WaitingForFood, Some(TableState::Ordered)));
    assert_eq!(customer_arrive_at_queue(CustomerPhase::WalkingToRegister), Some(CustomerPhase::WaitingForPayment));
}

#[test]
fn eaten_customer_queues_at_nearest_register() {
    let near = RegisterView {
        anchor: (2, 0),
        geo: geo(2, GridDirection::PosZ),
        slots: vec![
            QueueSlotView { slot: 20, index: 0, occupied: true },
            QueueSlotView { slot: 21, index: 1, occupied: false },
        ],
    };
    let far = RegisterView { anchor: (10, 10), geo: geo(2, GridDirection::PosZ), slots: vec![QueueSlotView { slot: 30, index: 0, occupied: false }] };
    assert_eq!(customer_eating((0, 0), &[far, near]), AfterEating::Queue(SlotChoice { slot: 21, target: (3, 2) }));
    let full = RegisterView { anchor: (2, 0), geo: geo(2, GridDirection::PosZ), slots: vec![QueueSlotView { slot: 20, index: 0, occupied: true }] };
    assert_eq!(customer_eating((0, 0), &[full]), AfterEating::Exit(EXIT_POSITION));
}

#[test]
fn leaving_customer_frees_reservations() {
    let mut g = GridLayers::new(3, 3);
    assert!(g.reserve_cell(1, 1, 7));
    assert_eq!(customer_exit(&mut g, 7, CustomerPhase::Eating, Some(TableState::Served)), None);
    assert!(!g.is_walkable(1, 1));
    assert_eq!(customer_exit(&mut g, 7, CustomerPhase::Leaving, Some(TableState::Served)), Some(Some(TableState::Dirty)));
    assert!(g.is_walkable(1, 1));
    let mut tables = vec![TableState::Dirty, TableState::Served];
    cleanup_tables(&mut tables);
    assert_eq!(tables, vec![TableState::Empty, TableState::Served]);
}

#[test]
fn orders_go_to_idle_staff_in_order() {
    let mut pending: VecDeque<u64> = VecDeque::from(vec![100, 101, 102]);
    let staff = [
        StaffMember { entity: 1, pos: (0, 0), phase: StaffPhase::Idle },
        StaffMember { entity: 2, pos: (9, 9), phase: StaffPhase::Cooking },
        StaffMember { entity: 3, pos: (5, 5), phase: StaffPhase::Idle },
    ];
    let slots = [FreeSlot { slot: 50, cell: (1, 0) }, FreeSlot { slot: 51, cell: (6, 5) }];
    let r = staff_pickup(&mut pending, &staff, &slots);
    assert_eq!(r, vec![Assignment { staff: 1, table: 100, target: 50 }, Assignment { staff: 3, table: 101, target: 51 }]);
    assert_eq!(pending, VecDeque::from(vec![102]));
    let r = staff_pickup(&mut pending, &staff, &[]);
    assert!(r.is_empty());
    assert_eq!(pending, VecDeque::from(vec![102]));
}

#[test]
fn cook_arrival_and_delivery() {
    assert_eq!(staff_arrive_at_stove(StaffPhase::WalkingToKitchen, false), Some(SlotArrival::Start(StaffPhase::Cooking)));
    assert_eq!(staff_arrive_at_stove(StaffPhase::WalkingToKitchen, true), Some(SlotArrival::Abort));
    assert_eq!(staff_arrive_at_stove(StaffPhase::Idle, false), None);
    let slots = [DeliverSlot { slot: 1, table: 9 }, DeliverSlot { slot: 2, table: 8 }, DeliverSlot { slot: 3, table: 8 }];
    assert_eq!(staff_cooking(8, &slots), Some(2));
    assert_eq!(staff_cooking(7, &slots), None);
    let mut g = GridLayers::new(3, 3);
    assert!(g.reserve_cell(2, 2, 4));
    assert_eq!(staff_deliver(&mut g, 4, (2, 2), StaffPhase::Delivering, false), Some(true));
    assert!(g.is_walkable(2, 2));
    assert_eq!(staff_deliver(&mut g, 4, (2, 2), StaffPhase::Idle, false), None);
}

#[test]
fn checkout_dispatch_and_tick() {
    let slots = [
        CheckoutSlot { slot: 1, register: 10, cell: (0, 0) },
        CheckoutSlot { slot: 2, register: 11, cell: (4, 0) },
        CheckoutSlot { slot: 3, register: 10, cell: (2, 0) },
    ];
    assert_eq!(staff_checkout_start((0, 0), &slots, &[10]), Some(3));
    assert_eq!(staff_checkout_start((0, 0), &slots, &[]), None);
    assert_eq!(staff_arrive_at_checkout(StaffPhase::WalkingToRegister, false, true), Some(SlotArrival::Start(StaffPhase::CheckingOut)));
    assert_eq!(staff_arrive_at_checkout(StaffPhase::WalkingToRegister, false, false), None);
    let queue = [
        QueueEntry { slot: 40, register: 10, index: 2, occupant: Some(70) },
        QueueEntry { slot: 41, register: 11, index: 0, occupant: Some(71) },
        QueueEntry { slot: 42, register: 10, index: 1, occupant: Some(72) },
        QueueEntry { slot: 43, register: 10, index: 0, occupant: None },
    ];
    let mut g = GridLayers::new(3, 3);
    assert!(g.reserve_cell(2, 0, 5));
    assert_eq!(staff_checkout_tick(&mut g, 5, 10, (2, 0), &queue), Some((42, 72)));
    assert!(g.is_walkable(2, 0));
}

#[test]
fn slot_offsets_of_appliances() {
    let (o, p) = insert_cook_offset((5, 5), &geo(2, GridDirection::PosZ));
    assert_eq!((o.dx, o.dz, p.x, p.z), (1, 1, 6, 6));
    let (o, _) = insert_cook_offset((5, 5), &geo(2, GridDirection::NegX));
    assert_eq!((o.dx, o.dz), (-1, 1));
    let (o, p) = insert_deliver_offset((5, 5), GridDirection::NegZ);
    assert_eq!((o.dx, o.dz, p.x, p.z), (0, -1, 5, 4));
    let (o, _) = insert_checkout_offset((5, 5), &geo(3, GridDirection::PosX));
    assert_eq!((o.dx, o.dz), (-1, 1));
    let (o, p) = insert_sit_offset((2, 3));
    assert_eq!((o.dx, o.dz, p.x, p.z), (0, 0, 2, 3));
    assert_eq!(queue_cell((5, 5), &geo(2, GridDirection::NegZ), 2), (6, 2));
    let (o, p) = insert_queue_offset((5, 5), &geo(2, GridDirection::PosX), 1);
    assert_eq!((o.dx, o.dz, p.x, p.z), (2, 1, 7, 6));
    assert_eq!(reindex_queue_slots((5, 5), &geo(2, GridDirection::PosX), 1).1, p);
    let mut g = GridLayers::new(3, 3);
    assert_eq!(spawn_table_slots((0, 1), &g), vec![GridDirection::PosZ, GridDirection::NegZ, GridDirection::PosX]);
    // A chair on the +X neighbour takes that side's slot away.
    assert!(g.try_place_floor(&[(1, 1)], 9));
    assert_eq!(spawn_table_slots((0, 1), &g), vec![GridDirection::PosZ, GridDirection::NegZ]);
}

#[test]
fn queue_slots_grow_and_shrink() {
    assert_eq!(ensure_next_queue_slot(&[(0, true), (1, false)]), None);
    assert_eq!(ensure_next_queue_slot(&[(0, true), (1, true)]), Some(2));
    assert_eq!(ensure_next_queue_slot(&[(0, false)]), None);
    assert_eq!(shrink_queue_slots(&[(0, true), (1, false), (2, false), (3, false)]), vec![false, false, true, true]);
    assert_eq!(shrink_queue_slots(&[(0, false), (1, false)]), vec![false, true]);
}

#[test]
fn kitchen_pickup_and_cooking() {
    let mut pending: VecDeque<u64> = VecDeque::from(vec![100]);
    let staff = [StaffMember { entity: 1, pos: (0, 0), phase: StaffPhase::Idle }];
    let stoves = [StoveZone { pos: (1, 0), cells: vec![] }, StoveZone { pos: (3, 0), cells: vec![(3, 2), (3, 1)] }];
    let r = staff_pickup_system(&mut pending, &staff, &stoves);
    assert_eq!(r, vec![Assignment { staff: 1, table: 100, target: (3, 1) }]);
    assert!(pending.is_empty());
    assert_eq!(
        staff_cooking_system((3, 1), StaffPhase::WalkingToKitchen, true, false, &[(0, 0), (3, 1)], None),
        CookingStep::StartCooking(Some(1))
    );
    let t = TableZone { pos: (8, 8), cells: vec![(8, 7), (7, 8)] };
    assert_eq!(staff_cooking_system((3, 1), StaffPhase::Cooking, false, true, &[], Some(&t)), CookingStep::Deliver(Some((8, 7))));
    let bare = TableZone { pos: (8, 8), cells: vec![] };
    assert_eq!(staff_cooking_system((3, 1), StaffPhase::Cooking, false, true, &[], Some(&bare)), CookingStep::Deliver(Some((8, 8))));
    assert_eq!(staff_cooking_system((3, 1), StaffPhase::Cooking, false, false, &[], Some(&bare)), CookingStep::Unchanged);
    let mut g = GridLayers::new(3, 3);
    assert!(!staff_deliver_system(&mut g, 1, (0, 0), StaffPhase::Idle));
    assert!(staff_deliver_system(&mut g, 1, (0, 0), StaffPhase::Delivering));
}

#[test]
fn register_zones_and_checkout_cycle() {
    let z = register_queue_zone((0, 0), &geo(2, GridDirection::PosZ), 5);
    assert_eq!(z.to_vec(), vec![(2, 0), (3, 0), (3, 1), (3, 2), (3, 3)]);
    let s = register_staff_zone((0, 0), &geo(2, GridDirection::PosZ));
    assert_eq!(s.to_vec(), vec![(0, -1)]);
    let (free, staff) = update_register_zones((0, 0), &geo(2, GridDirection::PosZ), 2);
    assert_eq!(free.to_vec(), vec![(3, 1), (3, 2), (3, 3)]);
    assert_eq!(staff.to_vec(), vec![(0, -1)]);
    let zones = vec![vec![(9, 9)], vec![(3, 1), (3, 2)]];
    assert_eq!(customer_arrive_at_register_system(CustomerPhase::WalkingToRegister, (3, 2), &zones), Some(1));
    assert_eq!(customer_arrive_at_register_system(CustomerPhase::Eating, (3, 2), &zones), None);
    let lines = [RegisterLine { staff_cell: Some((0, -1)), head: None }, RegisterLine { staff_cell: None, head: Some(77) }];
    assert_eq!(
        staff_checkout_system(StaffPhase::Idle, (4, 4), false, false, None, &lines),
        CheckoutStep::Take { register: 1, customer: 77, target: (4, 4) }
    );
    assert_eq!(staff_checkout_system(StaffPhase::WalkingToRegister, (4, 4), true, false, None, &lines), CheckoutStep::StartCheckout);
    assert_eq!(
        staff_checkout_system(StaffPhase::CheckingOut, (4, 4), false, true, Some(77), &lines),
        CheckoutStep::Finish { leaving: Some(77), exit: EXIT_POSITION }
    );
}

#[test]
fn zone_helper_shapes() {
    assert_eq!(bse::sim::zone_helpers::line((0, 0), GridDirection::NegX, 3).to_vec(), vec![(-1, 0), (-2, 0), (-3, 0)]);
    assert_eq!(front_cells((0, 0), &geo(2, GridDirection::PosZ), 2).to_vec(), vec![(0, 1), (0, 2), (1, 1), (1, 2)]);
    let ring = adjacent_cells(&[(1, 1)], 1).to_vec();
    assert_eq!(ring, vec![(0, 1), (1, 0), (1, 2), (2, 1)]);
    assert_eq!(clamp(&[(0, 0), (-1, 0), (2, 2), (3, 0)], (3, 3)).to_vec(), vec![(0, 0), (2, 2)]);
}

#[test]
fn interaction_cells() {
    assert_eq!(compute_front_cells((0, 0), &geo(2, GridDirection::NegZ), (5, 5)).to_vec(), Vec::<(i32, i32)>::new());
    assert_eq!(compute_front_cells((1, 1), &geo(2, GridDirection::PosZ), (5, 5)).to_vec(), vec![(1, 2), (2, 2)]);
    assert_eq!(compute_adjacent_cells(&[(0, 0)], 1, (3, 3)).to_vec(), vec![(0, 1), (1, 0)]);
    let mut g = GridLayers::new(5, 5);
    assert!(g.try_place_floor(&[(1, 2)], 9));
    assert!(g.try_place_floor(&[(2, 1)], 8));
    let mut hit = affected_entities(&g, &[(1, 1), (2, 2)]);
    hit.sort();
    assert_eq!(hit, vec![8, 9]);
    let cells = refresh_interaction_points_on_grid_change(&g, InteractionRule::Front, (1, 1), &geo(2, GridDirection::PosZ), &[(1, 1), (2, 1)]);
    assert_eq!(cells, Some(vec![(2, 2)]));
    assert_eq!(refresh_interaction_points_on_grid_change(&g, InteractionRule::OnSite, (1, 1), &geo(2, GridDirection::PosZ), &[]), None);
}

#[test]
fn local_steps() {
    assert_eq!(direction_toward((0, 0), (3, 2)), (1, 0));
    assert_eq!(direction_toward((0, 0), (1, -4)), (0, -1));
    assert_eq!(direction_toward((2, 2), (2, 2)), (0, 0));
    let mut g = GridLayers::new(5, 5);
    assert_eq!(local_step(1, (0, 0), (1, 0), &mut g, Some(2)), StepResult::Advance { to: (1, 0) });
    assert!(g.is_walkable(1, 0));
    assert_eq!(local_step(1, (0, 0), (3, 0), &mut g, Some(2)), StepResult::Advance { to: (1, 0) });
    assert!(!g.is_walkable(1, 0));
    assert_eq!(g.try_reserve(2, 1, 2, CellIntent::Occupy, Some(9)), ReserveResult::Claimed);
    assert!(g.try_place_floor(&[(1, 2)], 50));
    assert_eq!(local_step(3, (1, 1), (3, 1), &mut g, Some(2)), StepResult::Advance { to: (1, 2) });
    assert_eq!(local_step(3, (1, 1), (3, 1), &mut g, None), StepResult::Wait);
    assert_eq!(bfs_closer((0, 0), (4, 0), &g, 3, 1), Some((1, 0)));
}

#[test]
fn bfs_finds_a_detour_or_reports_none() {
    // One floor cell at (1, 0): from (0, 0) toward (3, 0) the first closer
    // cell on a walkable route is (2, 1), three steps away.
    let mut g = GridLayers::new(4, 4);
    assert!(g.try_place_floor(&[(1, 0)], 7));
    assert_eq!(bfs_closer((0, 0), (3, 0), &g, 3, 1), Some((2, 1)));
    assert_eq!(bfs_closer((0, 0), (3, 0), &g, 2, 1), None);
    // Walled in on every side: nothing is reachable at any depth.
    let mut h = GridLayers::new(3, 3);
    assert!(h.try_place_floor(&[(0, 1), (2, 1), (1, 0), (1, 2)], 8));
    assert_eq!(bfs_closer((1, 1), (2, 2), &h, 3, 1), None);
    assert_eq!(local_step(1, (1, 1), (0, 0), &mut h, None), StepResult::Wait);
}

#[test]
fn agents_follow_their_paths() {
    let mut q = PathQueue { path: VecDeque::from(vec![(2, 0), (3, 0)]) };
    assert_eq!(agent_movement_tick(&mut q, (1, 0)), (GridPosition { x: 1, z: 0 }, SegmentEnd::Next { from: (1, 0), to: (2, 0) }));
    assert_eq!(universal_agent_move_system(&mut q, (2, 0)).1, SegmentEnd::Next { from: (2, 0), to: (3, 0) });
    assert_eq!(universal_agent_move_system(&mut q, (3, 0)).1, SegmentEnd::Complete);
}

#[test]
fn astar_finds_a_detour() {
    let mut m = WorldGridMap::new(3, 3);
    m.set_occupancy(1, 0, GridOccupancy::Occupied);
    m.set_occupancy(1, 1, GridOccupancy::Occupied);
    let p = compute_agent_path((0, 0), (2, 0), &m, false).unwrap();
    assert_eq!(p.len(), 7);
    assert_eq!(p[0], (0, 0));
    assert_eq!(p[6], (2, 0));
    m.set_occupancy(1, 2, GridOccupancy::Occupied);
    assert_eq!(compute_agent_path((0, 0), (2, 0), &m, false), None);
    assert_eq!(compute_agent_path((0, 0), (0, 0), &m, false), Some(vec![(0, 0)]));
}

#[test]
fn astar_enters_an_occupied_goal_only_when_allowed() {
    let mut m = WorldGridMap::new(3, 1);
    m.set_occupancy(2, 0, GridOccupancy::Occupied);
    assert_eq!(compute_agent_path((0, 0), (2, 0), &m, false), None);
    assert_eq!(compute_agent_path((0, 0), (2, 0), &m, true), Some(vec![(0, 0), (1, 0), (2, 0)]));
    assert_eq!(grid_successors(&m, (2, 0), true, (1, 0)), vec![((2, 0), 1), ((0, 0), 1)]);
    assert_eq!(goal_heuristic((2, 0), (0, 3)), 5);
}

#[test]
fn navigation_starts_with_the_second_cell() {
    assert_eq!(plan_route(vec![(0, 0)]), None);
    let (next, rest) = plan_route(vec![(0, 0), (1, 0), (2, 0), (2, 1)]).unwrap();
    assert_eq!(next, (1, 0));
    assert_eq!(rest, VecDeque::from(vec![(2, 0), (2, 1)]));
    let m = WorldGridMap::new(4, 1);
    let (next, rest) = navigate_to((0, 0), (3, 0), &m).unwrap();
    assert_eq!(next, (1, 0));
    assert_eq!(rest, VecDeque::from(vec![(2, 0), (3, 0)]));
}

#[test]
fn customers_take_seats_at_empty_tables() {
    let chairs = [
        ChairSeat { entity: 1, pos: (0, 1), table: Some(0) },
        ChairSeat { entity: 2, pos: (1, 1), table: Some(0) },
        ChairSeat { entity: 3, pos: (5, 1), table: Some(1) },
        ChairSeat { entity: 4, pos: (6, 1), table: None },
    ];
    let mut tables = vec![TableState::Empty, TableState::Empty];
    let mut chair_states = vec![ChairState::Available; 4];
    let customers = [(10, CustomerPhase::Entering), (11, CustomerPhase::Leaving), (12, CustomerPhase::Entering), (13, CustomerPhase::Entering)];
    let r = customer_find_seat_system(&customers, &chairs, &mut tables, &mut chair_states);
    assert_eq!(
        r,
        vec![
            SeatAssignment { customer: 10, chair: 1, seat: 0, target: (0, 1) },
            SeatAssignment { customer: 12, chair: 3, seat: 2, target: (5, 1) },
        ]
    );
    assert_eq!(tables, vec![TableState::Occupied, TableState::Occupied]);
    assert_eq!(chair_states, vec![ChairState::Reserved, ChairState::Available, ChairState::Reserved, ChairState::Available]);
}

#[test]
fn lifecycle_steps() {
    assert_eq!(customer_arrive_at_seat_system(CustomerPhase::WalkingToSeat, Some(TableState::Occupied)), Some(true));
    assert_eq!(customer_arrive_at_seat_system(CustomerPhase::WalkingToSeat, Some(TableState::Ordered)), None);
    assert_eq!(customer_arrive_at_seat_system(CustomerPhase::WalkingToSeat, None), Some(false));
    assert_eq!(customer_eating_system(CustomerPhase::WaitingForFood, Some(TableState::Served), false), EatingStep::StartEating);
    assert_eq!(customer_eating_system(CustomerPhase::Eating, Some(TableState::Served), true), EatingStep::Leave(EXIT_POSITION));
    assert_eq!(customer_eating_system(CustomerPhase::Eating, Some(TableState::Served), false), EatingStep::Unchanged);
    assert_eq!(customer_exit_and_despawn_system(CustomerPhase::Leaving, Some(TableState::Served)), Some(Some(TableState::Dirty)));
    assert_eq!(customer_exit_and_despawn_system(CustomerPhase::Eating, None), None);
    let mut tables = vec![TableState::Dirty, TableState::Served];
    let mut chairs = vec![ChairState::Reserved, ChairState::Reserved, ChairState::Occupied];
    cleanup_table_system(&mut tables, &[Some(0), Some(1), Some(0)], &mut chairs);
    assert_eq!(tables, vec![TableState::Empty, TableState::Served]);
    assert_eq!(chairs, vec![ChairState::Available, ChairState::Reserved, ChairState::Available]);
}

#[test]
fn fan_stays_rather_than_backing_off() {
    // Ideal, left and right are held by another agent: the agent stays put
    // instead of stepping away from the target.
    let mut g = GridLayers::new(5, 5);
    for c in [(2, 1), (1, 2), (1, 0)] {
        assert_eq!(g.try_reserve(c.0, c.1, 7, CellIntent::Occupy, Some(9)), ReserveResult::Claimed);
    }
    assert_eq!(local_step(3, (1, 1), (3, 1), &mut g, Some(2)), StepResult::Advance { to: (1, 1) });
}
