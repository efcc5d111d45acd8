//! Decisions of the customer's visit: choosing a seat, ordering, choosing a
//! register queue after eating, leaving, and tables being cleaned.

use vstd::prelude::*;
use crate::base::components::{EntityId, TableState, EXIT_POSITION};
use crate::sim::components::{ApplianceGeometry, CustomerPhase};
use crate::sim::select::{
    distances, first_min, lemma_first_min_choice, lemma_nearest_choice, manhattan, nearest_cell, opt_int, spec_first_min,
};
use crate::sim::slot_spawn::{queue_cell, queue_fits, spec_queue_cell};
use crate::sim::world::{held_by, GridLayers};

verus! {

/// Distances must stay below `i32::MAX` for a candidate to be chosen.
pub open spec fn dist_cap() -> Option<u64> {
    Some(0x7fff_ffffu64)
}

/// A free seat slot: the slot, the cell of its chair, and the state of the
/// table the chair belongs to (`None` when that table has no state).
#[derive(Clone, Copy, Debug, PartialEq, Eq)]
pub struct SeatCandidate {
    pub slot: EntityId,
    pub chair: (i32, i32),
    pub table: Option<TableState>,
}

/// A slot to walk to and the cell where it lies.
#[derive(Clone, Copy, Debug, PartialEq, Eq)]
pub struct SlotChoice {
    pub slot: EntityId,
    pub target: (i32, i32),
}

/// A customer sits on the chair cell itself.
pub open spec fn customer_sit_cell(chair: (i32, i32)) -> (i32, i32) {
    chair
}

pub open spec fn seat_cells(seats: Seq<SeatCandidate>) -> Seq<(i32, i32)> {
    Seq::new(seats.len(), |k: int| seats[k].chair)
}

/// Seats whose table is empty can be taken.
pub open spec fn seat_open(seats: Seq<SeatCandidate>) -> Seq<bool> {
    Seq::new(seats.len(), |k: int| seats[k].table == Some(TableState::Empty))
}

/// The seat an entering customer heads for: the nearest one at an empty
/// table, the first of equally near ones.
pub open spec fn spec_find_seat(pos: (i32, i32), seats: Seq<SeatCandidate>) -> Option<SlotChoice> {
    match spec_first_min(distances(pos, seat_cells(seats)), seat_open(seats), dist_cap()) {
        Some(i) => Some(SlotChoice { slot: seats[i].slot, target: customer_sit_cell(seats[i].chair) }),
        None => None,
    }
}

/// Seat choice of an entering customer at `pos` among the free seat slots.
pub fn customer_find_seat(pos: (i32, i32), seats: &[SeatCandidate]) -> (r: Option<SlotChoice>)
    ensures
        r == spec_find_seat(pos, seats@),
{
    let mut cells: Vec<(i32, i32)> = Vec::new();
    let mut open: Vec<bool> = Vec::new();
    let mut i: usize = 0;
    while i < seats.len()
        invariant
            0 <= i <= seats@.len(),
            cells@ == seat_cells(seats@).subrange(0, i as int),
            open@ == seat_open(seats@).subrange(0, i as int),
        decreases seats@.len() - i,
    {
        cells.push(seats[i].chair);
        open.push(seats[i].table == Some(TableState::Empty));
        i = i + 1;
    }
    proof {
        assert(cells@ == seat_cells(seats@));
        assert(open@ == seat_open(seats@));
    }
    match nearest_cell(pos, cells.as_slice(), open.as_slice(), Some(0x7fff_ffffu64)) {
        Some(k) => Some(SlotChoice { slot: seats[k].slot, target: seats[k].chair }),
        None => None,
    }
}

/// An entering customer only ever heads for a seat at an empty table, and
/// for no seat farther away than another one at an empty table: a seat at a
/// table in any other state is never chosen.
pub proof fn law_seat_at_nearest_empty_table(pos: (i32, i32), seats: Seq<SeatCandidate>)
    ensures
        spec_find_seat(pos, seats) matches Some(c) ==> exists|k: int|
            0 <= k < seats.len() && #[trigger] seats[k].slot == c.slot && seats[k].chair == c.target
                && seats[k].table == Some(TableState::Empty) && forall|j: int|
                0 <= j < seats.len() && seats[j].table == Some(TableState::Empty) ==> manhattan(pos, seats[k].chair)
                    <= manhattan(pos, #[trigger] seats[j].chair),
{
    lemma_nearest_choice(pos, seat_cells(seats), seat_open(seats), dist_cap());
    if let Some(c) = spec_find_seat(pos, seats) {
        let i = spec_first_min(distances(pos, seat_cells(seats)), seat_open(seats), dist_cap())->Some_0;
        assert(seat_cells(seats)[i] == seats[i].chair);
        assert forall|j: int| 0 <= j < seats.len() && seats[j].table == Some(TableState::Empty) implies manhattan(
            pos,
            seats[i].chair,
        ) <= manhattan(pos, #[trigger] seats[j].chair) by {
            assert(seat_open(seats)[j]);
            assert(seat_cells(seats)[j] == seats[j].chair);
        }
        assert(seats[i].slot == c.slot);
    }
}

/// What arriving at the seat changes: whether the table takes an order
/// (it exists) and the customer's next phase.
#[derive(Clone, Copy, Debug, PartialEq, Eq, Structural)]
pub struct SeatArrival {
    pub order_table: bool,
    pub next: CustomerPhase,
}

/// An entering customer who reached the seat occupies it, orders at the table
/// when it has a state (the table becomes `Ordered` and joins the order queue)
/// and waits for food. Customers in other phases are left alone.
pub fn customer_arrive_at_seat(phase: CustomerPhase, table: Option<TableState>) -> (r: Option<SeatArrival>)
    ensures
        r == if phase == CustomerPhase::Entering {
            Some(SeatArrival { order_table: table is Some, next: CustomerPhase::WaitingForFood })
        } else {
            None
        },
{
    if phase != CustomerPhase::Entering {
        return None;
    }
    Some(SeatArrival { order_table: table.is_some(), next: CustomerPhase::WaitingForFood })
}

/// A waiting customer starts eating once the table is served.
pub fn food_arrived(phase: CustomerPhase, table: Option<TableState>) -> (r: bool)
    ensures
        r == (phase == CustomerPhase::WaitingForFood && table == Some(TableState::Served)),
{
    phase == CustomerPhase::WaitingForFood && table == Some(TableState::Served)
}

/// A queue position of a register and whether a customer occupies it.
#[derive(Clone, Copy, Debug, PartialEq, Eq, Structural)]
pub struct QueueSlotView {
    pub slot: EntityId,
    pub index: usize,
    pub occupied: bool,
}

/// A register, where it stands, and its queue positions.
#[derive(Debug)]
pub struct RegisterView {
    pub anchor: (i32, i32),
    pub geo: ApplianceGeometry,
    pub slots: Vec<QueueSlotView>,
}

pub open spec fn slot_indices(slots: Seq<QueueSlotView>) -> Seq<u64> {
    Seq::new(slots.len(), |k: int| slots[k].index as u64)
}

pub open spec fn slot_free(slots: Seq<QueueSlotView>) -> Seq<bool> {
    Seq::new(slots.len(), |k: int| !slots[k].occupied)
}

/// The free queue position with the lowest index, the first of equal ones.
pub open spec fn lowest_free(slots: Seq<QueueSlotView>) -> Option<int> {
    spec_first_min(slot_indices(slots), slot_free(slots), None)
}

/// The register's lowest free queue slot and its cell.
pub open spec fn register_front(reg: RegisterView) -> Option<SlotChoice> {
    match lowest_free(reg.slots@) {
        Some(l) => Some(
            SlotChoice { slot: reg.slots@[l].slot, target: spec_queue_cell(reg.anchor, reg.geo, reg.slots@[l].index as int) },
        ),
        None => None,
    }
}

pub open spec fn front_cells(regs: Seq<RegisterView>) -> Seq<(i32, i32)> {
    Seq::new(
        regs.len(),
        |k: int|
            match register_front(regs[k]) {
                Some(c) => c.target,
                None => (0i32, 0i32),
            },
    )
}

pub open spec fn front_ok(regs: Seq<RegisterView>) -> Seq<bool> {
    Seq::new(regs.len(), |k: int| register_front(regs[k]) is Some)
}

/// Every free queue position lies on the grid's coordinate range.
pub open spec fn queues_fit(regs: Seq<RegisterView>) -> bool {
    forall|k: int, j: int|
        0 <= k < regs.len() && 0 <= j < regs[k].slots@.len() && !(#[trigger] regs[k].slots@[j]).occupied
            ==> queue_fits(regs[k].anchor, regs[k].geo, regs[k].slots@[j].index as int)
}

/// Where a customer who finished eating goes.
#[derive(Clone, Copy, Debug, PartialEq, Eq)]
pub enum AfterEating {
    /// Walk to this queue slot and become `WalkingToRegister`.
    Queue(SlotChoice),
    /// No free queue slot: walk to the exit and become `Leaving`.
    Exit((i32, i32)),
}

/// The queue slot at the register whose lowest free slot is nearest, the first
/// register of equally near ones; the exit when no register has a free slot.
pub open spec fn spec_after_eating(pos: (i32, i32), regs: Seq<RegisterView>) -> AfterEating {
    match spec_first_min(distances(pos, front_cells(regs)), front_ok(regs), dist_cap()) {
        Some(r) => AfterEating::Queue(register_front(regs[r])->Some_0),
        None => AfterEating::Exit(EXIT_POSITION),
    }
}

fn register_front_of(reg: &RegisterView) -> (r: Option<SlotChoice>)
    requires
        forall|j: int|
            0 <= j < reg.slots@.len() && !(#[trigger] reg.slots@[j]).occupied ==> queue_fits(reg.anchor, reg.geo, reg.slots@[j].index as int),
    ensures
        r == register_front(*reg),
{
    let mut keys: Vec<u64> = Vec::new();
    let mut free: Vec<bool> = Vec::new();
    let mut i: usize = 0;
    while i < reg.slots.len()
        invariant
            0 <= i <= reg.slots@.len(),
            keys@ == slot_indices(reg.slots@).subrange(0, i as int),
            free@ == slot_free(reg.slots@).subrange(0, i as int),
        decreases reg.slots@.len() - i,
    {
        keys.push(reg.slots[i].index as u64);
        free.push(!reg.slots[i].occupied);
        i = i + 1;
    }
    proof {
        assert(keys@ == slot_indices(reg.slots@));
        assert(free@ == slot_free(reg.slots@));
    }
    match first_min(keys.as_slice(), free.as_slice(), None) {
        Some(l) => {
            let s = reg.slots[l];
            assert(free@[l as int]);
            let cell = queue_cell(reg.anchor, &reg.geo, s.index);
            Some(SlotChoice { slot: s.slot, target: cell })
        },
        None => None,
    }
}

/// The front of a register's queue is a free position with the lowest index
/// among its free positions, and the customer is sent to that position's cell.
pub proof fn law_queue_front_is_lowest_free(reg: RegisterView)
    ensures
        register_front(reg) matches Some(c) ==> exists|l: int|
            0 <= l < reg.slots@.len() && !(#[trigger] reg.slots@[l]).occupied && c.slot == reg.slots@[l].slot
                && c.target == spec_queue_cell(reg.anchor, reg.geo, reg.slots@[l].index as int) && forall|j: int|
                0 <= j < reg.slots@.len() && !reg.slots@[j].occupied ==> reg.slots@[l].index <= (
                #[trigger] reg.slots@[j]).index,
{
    let s = reg.slots@;
    lemma_first_min_choice(slot_indices(s), slot_free(s), None);
    if let Some(l) = lowest_free(s) {
        assert(!s[l].occupied) by {
            assert(slot_free(s)[l]);
        }
        assert forall|j: int| 0 <= j < s.len() && !s[j].occupied implies s[l].index <= (#[trigger] s[j]).index by {
            assert(slot_free(s)[j]);
            assert(slot_indices(s)[j] == s[j].index as u64);
            assert(slot_indices(s)[l] == s[l].index as u64);
        }
        assert(0 <= l < s.len());
    }
}

/// A customer who finished eating joins a queue only at a free position
/// with the lowest index among the free positions of that register.
pub proof fn law_after_eating_joins_queue_front(pos: (i32, i32), regs: Seq<RegisterView>)
    ensures
        spec_after_eating(pos, regs) matches AfterEating::Queue(c) ==> exists|k: int, l: int|
            0 <= k < regs.len() && 0 <= l < regs[k].slots@.len() && !(#[trigger] regs[k].slots@[l]).occupied && c.slot
                == regs[k].slots@[l].slot && forall|j: int|
                0 <= j < regs[k].slots@.len() && !regs[k].slots@[j].occupied ==> regs[k].slots@[l].index <= (
                #[trigger] regs[k].slots@[j]).index,
{
    lemma_first_min_choice(distances(pos, front_cells(regs)), front_ok(regs), dist_cap());
    if let AfterEating::Queue(c) = spec_after_eating(pos, regs) {
        let k = spec_first_min(distances(pos, front_cells(regs)), front_ok(regs), dist_cap())->Some_0;
        assert(front_ok(regs)[k]);
        law_queue_front_is_lowest_free(regs[k]);
        let l = choose|l: int|
            0 <= l < regs[k].slots@.len() && !(#[trigger] regs[k].slots@[l]).occupied && register_front(regs[k])->Some_0.slot
                == regs[k].slots@[l].slot && register_front(regs[k])->Some_0.target == spec_queue_cell(
                regs[k].anchor,
                regs[k].geo,
                regs[k].slots@[l].index as int,
            ) && forall|j: int|
                0 <= j < regs[k].slots@.len() && !regs[k].slots@[j].occupied ==> regs[k].slots@[l].index <= (
                #[trigger] regs[k].slots@[j]).index;
        assert(c == register_front(regs[k])->Some_0);
        assert(!regs[k].slots@[l].occupied);
    }
}

/// Decision for a customer at `pos` whose eating timer ran out.
pub fn customer_eating(pos: (i32, i32), registers: &[RegisterView]) -> (r: AfterEating)
    requires
        queues_fit(registers@),
    ensures
        r == spec_after_eating(pos, registers@),
{
    let mut fronts: Vec<Option<SlotChoice>> = Vec::new();
    let mut cells: Vec<(i32, i32)> = Vec::new();
    let mut ok: Vec<bool> = Vec::new();
    let mut i: usize = 0;
    while i < registers.len()
        invariant
            0 <= i <= registers@.len(),
            queues_fit(registers@),
            fronts@.len() == i,
            forall|k: int| 0 <= k < i ==> #[trigger] fronts@[k] == register_front(registers@[k]),
            cells@ == front_cells(registers@).subrange(0, i as int),
            ok@ == front_ok(registers@).subrange(0, i as int),
        decreases registers@.len() - i,
    {
        let f = register_front_of(&registers[i]);
        fronts.push(f);
        cells.push(
            match f {
                Some(c) => c.target,
                None => (0, 0),
            },
        );
        ok.push(f.is_some());
        i = i + 1;
    }
    proof {
        assert(cells@ == front_cells(registers@));
        assert(ok@ == front_ok(registers@));
    }
    match nearest_cell(pos, cells.as_slice(), ok.as_slice(), Some(0x7fff_ffffu64)) {
        Some(k) => {
            assert(ok@[k as int]);
            match fronts[k] {
                Some(c) => AfterEating::Queue(c),
                None => AfterEating::Exit(EXIT_POSITION),
            }
        },
        None => AfterEating::Exit(EXIT_POSITION),
    }
}

/// A customer walking to a register who reached the queue slot occupies it
/// and waits for payment; others are left alone.
pub fn customer_arrive_at_queue(phase: CustomerPhase) -> (r: Option<CustomerPhase>)
    ensures
        r == if phase == CustomerPhase::WalkingToRegister {
            Some(CustomerPhase::WaitingForPayment)
        } else {
            None
        },
{
    if phase != CustomerPhase::WalkingToRegister {
        return None;
    }
    Some(CustomerPhase::WaitingForPayment)
}

/// A leaving customer who reached the exit gives up every grid reservation;
/// the result is the new state of the customer's table (`Dirty` when it has
/// one), after which the customer is removed. Customers in other phases are
/// left alone and the result is `None`.
pub fn customer_exit(grid: &mut GridLayers, entity: EntityId, phase: CustomerPhase, table: Option<TableState>) -> (r: Option<Option<TableState>>)
    requires
        old(grid).wf(),
    ensures
        final(grid).wf(),
        phase != CustomerPhase::Leaving ==> r is None && *final(grid) == *old(grid),
        phase == CustomerPhase::Leaving ==> {
            &&& r == Some(if table is Some { Some(TableState::Dirty) } else { None })
            &&& final(grid).same_but_reservations(old(grid))
            &&& forall|a: int, b: int|
                #![trigger final(grid).reserved_at(a, b)]
                final(grid).reserved_at(a, b) == if held_by(old(grid).reserved_at(a, b), entity) {
                    None
                } else {
                    old(grid).reserved_at(a, b)
                }
        },
{
    if phase != CustomerPhase::Leaving {
        return None;
    }
    grid.release_all(entity);
    Some(if table.is_some() { Some(TableState::Dirty) } else { None })
}

/// Dirty tables become empty; other tables keep their state.
pub open spec fn cleaned(t: TableState) -> TableState {
    if t == TableState::Dirty {
        TableState::Empty
    } else {
        t
    }
}

/// Cleaning turns a dirty table empty and leaves a table in any other state
/// as it was.
pub proof fn law_cleaning_touches_only_dirty_tables(t: TableState)
    ensures
        t == TableState::Dirty ==> cleaned(t) == TableState::Empty,
        t != TableState::Dirty ==> cleaned(t) == t,
{
}

/// Cleans every dirty table.
pub fn cleanup_tables(tables: &mut Vec<TableState>)
    ensures
        final(tables)@.len() == old(tables)@.len(),
        forall|k: int| 0 <= k < old(tables)@.len() ==> #[trigger] final(tables)@[k] == cleaned(old(tables)@[k]),
        forall|k: int|
            0 <= k < old(tables)@.len() && old(tables)@[k] == TableState::Dirty ==> #[trigger] final(tables)@[k]
                == TableState::Empty,
        forall|k: int|
            0 <= k < old(tables)@.len() && old(tables)@[k] != TableState::Dirty ==> #[trigger] final(tables)@[k]
                == old(tables)@[k],
{
    let ghost pre = tables@;
    let mut i: usize = 0;
    while i < tables.len()
        invariant
            0 <= i <= tables@.len(),
            tables@.len() == pre.len(),
            forall|k: int| 0 <= k < tables@.len() ==> #[trigger] tables@[k] == if k < i { cleaned(pre[k]) } else { pre[k] },
        decreases tables@.len() - i,
    {
        if tables[i] == TableState::Dirty {
            tables.set(i, TableState::Empty);
        }
        i = i + 1;
    }
}

} // verus!
