//! Kitchen flow driven by interaction zones: staff take orders to the
//! nearest stove with room, cook, and carry the food to the table.

use vstd::prelude::*;
use std::collections::VecDeque;
use crate::base::components::EntityId;
use crate::sim::components::StaffPhase;
use crate::sim::select::{
    all_eligible, all_true, distances, first_min, lemma_first_min_choice, lemma_manhattan_bounds, lemma_nearest_choice, manhattan,
    manhattan_distance, nearest_cell, spec_first_min,
};
use crate::sim::staff_ai::{dispatch_orders, spec_dispatch, staff_deliver, Assignment, StaffMember};
use crate::sim::world::{held_by, GridLayers};

verus! {

/// A stove, where it stands, and the free cells of its staff zone.
#[derive(Debug)]
pub struct StoveZone {
    pub pos: (i32, i32),
    pub cells: Vec<(i32, i32)>,
}

pub open spec fn stove_keys(pos: (i32, i32), stoves: Seq<StoveZone>) -> Seq<u64> {
    Seq::new(stoves.len(), |k: int| manhattan(pos, stoves[k].pos) as u64)
}

pub open spec fn stove_has_room(stoves: Seq<StoveZone>) -> Seq<bool> {
    Seq::new(stoves.len(), |k: int| stoves[k].cells@.len() > 0)
}

/// The cell a staff member at `pos` heads for: in the zone of the nearest
/// stove with a free cell, the zone cell nearest to `pos`, the first of
/// equally near stoves and cells.
pub open spec fn kitchen_target(pos: (i32, i32), stoves: Seq<StoveZone>) -> Option<(i32, i32)> {
    match spec_first_min(stove_keys(pos, stoves), stove_has_room(stoves), None) {
        Some(s) => {
            let cells = stoves[s].cells@;
            match spec_first_min(distances(pos, cells), all_true(cells.len() as int), None) {
                Some(c) => Some(cells[c]),
                None => None,
            }
        },
        None => None,
    }
}

/// Staff head for a cell of a stove that has room, no farther away than
/// any other stove with room, and to the zone cell nearest to them there.
pub proof fn law_kitchen_target_at_nearest_stove(pos: (i32, i32), stoves: Seq<StoveZone>)
    ensures
        kitchen_target(pos, stoves) matches Some(t) ==> exists|s: int|
            0 <= s < stoves.len() && (#[trigger] stoves[s]).cells@.contains(t) && (forall|j: int|
                0 <= j < stoves.len() && stoves[j].cells@.len() > 0 ==> manhattan(pos, stoves[s].pos) <= manhattan(
                    pos,
                    (#[trigger] stoves[j]).pos,
                )) && forall|c: (i32, i32)| stoves[s].cells@.contains(c) ==> manhattan(pos, t) <= #[trigger] manhattan(pos, c),
{
    lemma_first_min_choice(stove_keys(pos, stoves), stove_has_room(stoves), None);
    if let Some(t) = kitchen_target(pos, stoves) {
        let s = spec_first_min(stove_keys(pos, stoves), stove_has_room(stoves), None)->Some_0;
        let cells = stoves[s].cells@;
        lemma_nearest_choice(pos, cells, all_true(cells.len() as int), None);
        let c = spec_first_min(distances(pos, cells), all_true(cells.len() as int), None)->Some_0;
        assert(cells[c] == t);
        assert(cells.contains(t));
        assert forall|j: int| 0 <= j < stoves.len() && stoves[j].cells@.len() > 0 implies manhattan(pos, stoves[s].pos)
            <= manhattan(pos, (#[trigger] stoves[j]).pos) by {
            assert(stove_has_room(stoves)[j]);
            lemma_manhattan_bounds(pos, stoves[j].pos);
            lemma_manhattan_bounds(pos, stoves[s].pos);
            assert(stove_keys(pos, stoves)[j] as int == manhattan(pos, stoves[j].pos));
            assert(stove_keys(pos, stoves)[s] as int == manhattan(pos, stoves[s].pos));
        }
        assert forall|x: (i32, i32)| cells.contains(x) implies manhattan(pos, t) <= #[trigger] manhattan(pos, x) by {
            let m = choose|m: int| 0 <= m < cells.len() && cells[m] == x;
            assert(all_true(cells.len() as int)[m]);
        }
    }
}

fn kitchen_target_of(pos: (i32, i32), stoves: &[StoveZone]) -> (r: Option<(i32, i32)>)
    ensures
        r == kitchen_target(pos, stoves@),
{
    let mut keys: Vec<u64> = Vec::new();
    let mut room: Vec<bool> = Vec::new();
    let mut i: usize = 0;
    while i < stoves.len()
        invariant
            0 <= i <= stoves@.len(),
            keys@ == stove_keys(pos, stoves@).subrange(0, i as int),
            room@ == stove_has_room(stoves@).subrange(0, i as int),
        decreases stoves@.len() - i,
    {
        keys.push(manhattan_distance(pos, stoves[i].pos));
        room.push(stoves[i].cells.len() > 0);
        i = i + 1;
    }
    assert(keys@ == stove_keys(pos, stoves@));
    assert(room@ == stove_has_room(stoves@));
    match first_min(keys.as_slice(), room.as_slice(), None) {
        Some(s) => {
            let cells = stoves[s].cells.as_slice();
            let all = all_eligible(cells.len());
            match nearest_cell(pos, cells, all.as_slice(), None) {
                Some(c) => Some(cells[c]),
                None => None,
            }
        },
        None => None,
    }
}

pub open spec fn kitchen_choices(staff: Seq<StaffMember>, stoves: Seq<StoveZone>) -> Seq<Option<(i32, i32)>> {
    Seq::new(staff.len(), |k: int| kitchen_target(staff[k].pos, stoves))
}

/// Idle staff take pending orders and head for a free cell at the nearest
/// stove with room; with no such stove the order goes back to the front.
pub fn staff_pickup_system(pending: &mut VecDeque<EntityId>, staff: &[StaffMember], stoves: &[StoveZone]) -> (r: Vec<
    Assignment<(i32, i32)>,
>)
    ensures
        (final(pending)@, r@) == spec_dispatch(old(pending)@, staff@, kitchen_choices(staff@, stoves@)),
{
    let mut choices: Vec<Option<(i32, i32)>> = Vec::new();
    let mut i: usize = 0;
    while i < staff.len()
        invariant
            0 <= i <= staff@.len(),
            choices@ == kitchen_choices(staff@, stoves@).subrange(0, i as int),
        decreases staff@.len() - i,
    {
        choices.push(kitchen_target_of(staff[i].pos, stoves));
        i = i + 1;
    }
    assert(choices@ == kitchen_choices(staff@, stoves@));
    dispatch_orders(pending, staff, choices.as_slice())
}

/// A table and the free cells of its staff zone.
#[derive(Debug)]
pub struct TableZone {
    pub pos: (i32, i32),
    pub cells: Vec<(i32, i32)>,
}

/// What one frame of the kitchen does to a staff member.
#[derive(Clone, Copy, Debug, PartialEq, Eq)]
pub enum CookingStep {
    Unchanged,
    /// Arrived: start cooking; the stove standing on the staff member's cell
    /// (given by its position in the stove list), if any, starts cooking too.
    StartCooking(Option<usize>),
    /// Cooking done: become `Delivering` and walk to the given cell, if the
    /// target table was found.
    Deliver(Option<(i32, i32)>),
}

pub open spec fn zero_keys(n: int) -> Seq<u64> {
    Seq::new(n as nat, |k: int| 0u64)
}

pub open spec fn at_cell(cells: Seq<(i32, i32)>, pos: (i32, i32)) -> Seq<bool> {
    Seq::new(cells.len(), |k: int| cells[k] == pos)
}

/// Where a cook at `pos` brings the food: the table zone cell nearest to
/// `pos`, the table's own cell when the zone has no free cell.
pub open spec fn deliver_cell(pos: (i32, i32), table: TableZone) -> (i32, i32) {
    let cells = table.cells@;
    match spec_first_min(distances(pos, cells), all_true(cells.len() as int), None) {
        Some(c) => cells[c],
        None => table.pos,
    }
}

/// One frame for a staff member with a kitchen task: a walking cook who
/// arrived starts cooking along with the stove on the same cell; a cook whose
/// timer ran out heads for the target table.
pub open spec fn spec_cooking_step(
    pos: (i32, i32),
    phase: StaffPhase,
    nav_complete: bool,
    timer_done: bool,
    stoves: Seq<(i32, i32)>,
    table: Option<TableZone>,
) -> CookingStep {
    if phase == StaffPhase::WalkingToKitchen {
        if nav_complete {
            CookingStep::StartCooking(
                match spec_first_min(zero_keys(stoves.len() as int), at_cell(stoves, pos), None) {
                    Some(i) => Some(i as usize),
                    None => None,
                },
            )
        } else {
            CookingStep::Unchanged
        }
    } else if phase == StaffPhase::Cooking && timer_done {
        CookingStep::Deliver(
            match table {
                Some(t) => Some(deliver_cell(pos, t)),
                None => None,
            },
        )
    } else {
        CookingStep::Unchanged
    }
}

pub fn staff_cooking_system(
    pos: (i32, i32),
    phase: StaffPhase,
    nav_complete: bool,
    timer_done: bool,
    stoves: &[(i32, i32)],
    table: Option<&TableZone>,
) -> (r: CookingStep)
    ensures
        r == spec_cooking_step(
            pos,
            phase,
            nav_complete,
            timer_done,
            stoves@,
            match table {
                Some(t) => Some(*t),
                None => None,
            },
        ),
{
    if phase == StaffPhase::WalkingToKitchen {
        if !nav_complete {
            return CookingStep::Unchanged;
        }
        let mut keys: Vec<u64> = Vec::new();
        let mut here: Vec<bool> = Vec::new();
        let mut i: usize = 0;
        while i < stoves.len()
            invariant
                0 <= i <= stoves@.len(),
                keys@ == zero_keys(stoves@.len() as int).subrange(0, i as int),
                here@ == at_cell(stoves@, pos).subrange(0, i as int),
            decreases stoves@.len() - i,
        {
            keys.push(0);
            here.push(stoves[i].0 == pos.0 && stoves[i].1 == pos.1);
            i = i + 1;
        }
        assert(keys@ == zero_keys(stoves@.len() as int));
        assert(here@ == at_cell(stoves@, pos));
        let s = first_min(keys.as_slice(), here.as_slice(), None);
        return CookingStep::StartCooking(s);
    }
    if phase == StaffPhase::Cooking && timer_done {
        return match table {
            Some(t) => {
                let cells = t.cells.as_slice();
                let all = all_eligible(cells.len());
                let cell = match nearest_cell(pos, cells, all.as_slice(), None) {
                    Some(c) => cells[c],
                    None => t.pos,
                };
                CookingStep::Deliver(Some(cell))
            },
            None => CookingStep::Deliver(None),
        };
    }
    CookingStep::Unchanged
}

/// A delivering staff member who arrived serves the table, gives up the
/// cell's reservation and becomes idle; the result says whether this happened.
pub fn staff_deliver_system(grid: &mut GridLayers, staff: EntityId, pos: (i32, i32), phase: StaffPhase) -> (r: bool)
    requires
        old(grid).wf(),
    ensures
        final(grid).wf(),
        r == (phase == StaffPhase::Delivering),
        !r ==> *final(grid) == *old(grid),
        r ==> final(grid).same_but_reservations(old(grid)),
        r ==> forall|a: int, b: int|
            #![trigger final(grid).reserved_at(a, b)]
            final(grid).reserved_at(a, b) == if a == pos.0 && b == pos.1 && held_by(old(grid).reserved_at(a, b), staff) {
                None
            } else {
                old(grid).reserved_at(a, b)
            },
{
    staff_deliver(grid, staff, pos, phase, false).is_some()
}

} // verus!
