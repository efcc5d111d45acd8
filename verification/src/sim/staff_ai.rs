//! Decisions of the staff: taking orders to a stove, cooking, delivering,
//! and checking customers out at a register.

use vstd::prelude::*;
use std::collections::VecDeque;
use crate::base::components::EntityId;
use crate::sim::components::StaffPhase;
use crate::sim::customer_ai::dist_cap;
use crate::sim::select::{
    all_eligible, all_true, distances, first_min, lemma_nearest_choice, manhattan, nearest_cell, opt_int, spec_first_min,
};
use crate::sim::world::{held_by, GridLayers};

verus! {

/// A staff member as the dispatcher sees it.
#[derive(Clone, Copy, Debug, PartialEq, Eq)]
pub struct StaffMember {
    pub entity: EntityId,
    pub pos: (i32, i32),
    pub phase: StaffPhase,
}

/// A free service slot and the cell where it lies.
#[derive(Clone, Copy, Debug, PartialEq, Eq)]
pub struct FreeSlot {
    pub slot: EntityId,
    pub cell: (i32, i32),
}

pub open spec fn slot_cells(slots: Seq<FreeSlot>) -> Seq<(i32, i32)> {
    Seq::new(slots.len(), |k: int| slots[k].cell)
}

/// The free slot nearest to `pos`, the first of equally near ones.
pub open spec fn nearest_slot(pos: (i32, i32), slots: Seq<FreeSlot>) -> Option<int> {
    spec_first_min(distances(pos, slot_cells(slots)), all_true(slots.len() as int), dist_cap())
}

/// A staff member sent for a table's order, and where to.
#[derive(Clone, Copy, Debug, PartialEq, Eq)]
pub struct Assignment<T> {
    pub staff: EntityId,
    pub table: EntityId,
    pub target: T,
}

/// Orders handed out one staff member at a time, in order: an idle one with
/// a place to go (`choices`) takes the oldest order; an idle one with none
/// takes it and puts it back in front. Ends when the orders run out. The
/// result is the remaining queue and the assignments made.
pub open spec fn spec_dispatch<T>(pending: Seq<EntityId>, staff: Seq<StaffMember>, choices: Seq<Option<T>>) -> (
    Seq<EntityId>,
    Seq<Assignment<T>>,
)
    decreases staff.len(),
{
    if staff.len() == 0 || pending.len() == 0 {
        (pending, Seq::empty())
    } else {
        let s = staff[0];
        if s.phase != StaffPhase::Idle {
            spec_dispatch(pending, staff.skip(1), choices.skip(1))
        } else {
            match choices[0] {
                Some(t) => {
                    let rest = spec_dispatch(pending.skip(1), staff.skip(1), choices.skip(1));
                    (rest.0, seq![Assignment { staff: s.entity, table: pending[0], target: t }] + rest.1)
                },
                None => spec_dispatch(pending, staff.skip(1), choices.skip(1)),
            }
        }
    }
}

/// Hands the orders in `pending` to the staff as `spec_dispatch` describes.
pub fn dispatch_orders<T: Copy>(pending: &mut VecDeque<EntityId>, staff: &[StaffMember], choices: &[Option<T>]) -> (r: Vec<
    Assignment<T>,
>)
    requires
        choices@.len() == staff@.len(),
    ensures
        (final(pending)@, r@) == spec_dispatch(old(pending)@, staff@, choices@),
{
    let ghost target = spec_dispatch(pending@, staff@, choices@);
    let mut out: Vec<Assignment<T>> = Vec::new();
    let mut i: usize = 0;
    proof {
        assert(staff@.skip(0) =~= staff@);
        assert(choices@.skip(0) =~= choices@);
        assert(out@ + target.1 =~= target.1);
    }
    while i < staff.len()
        invariant
            0 <= i <= staff@.len(),
            choices@.len() == staff@.len(),
            ({
                let rest = spec_dispatch(pending@, staff@.skip(i as int), choices@.skip(i as int));
                target == (rest.0, out@ + rest.1)
            }),
        ensures
            staff@.skip(i as int).len() == 0 || pending@.len() == 0,
            ({
                let rest = spec_dispatch(pending@, staff@.skip(i as int), choices@.skip(i as int));
                target == (rest.0, out@ + rest.1)
            }),
        decreases staff@.len() - i,
    {
        let s = staff[i];
        proof {
            assert(staff@.skip(i as int).skip(1) =~= staff@.skip(i + 1));
            assert(choices@.skip(i as int).skip(1) =~= choices@.skip(i + 1));
            assert(staff@.skip(i as int)[0] == s);
            assert(choices@.skip(i as int)[0] == choices@[i as int]);
        }
        if s.phase != StaffPhase::Idle {
            i = i + 1;
            continue;
        }
        let ghost before = pending@;
        let table = match pending.pop_front() {
            Some(t) => t,
            None => {
                break;
            },
        };
        match choices[i] {
            Some(t) => {
                let a = Assignment { staff: s.entity, table, target: t };
                proof {
                    assert(before.skip(1) =~= pending@);
                    let rest = spec_dispatch(pending@, staff@.skip(i + 1), choices@.skip(i + 1));
                    assert(out@.push(a) + rest.1 =~= out@ + (seq![a] + rest.1));
                }
                out.push(a);
            },
            None => {
                pending.push_front(table);
                proof {
                    assert(pending@ =~= before);
                }
            },
        }
        i = i + 1;
    }
    proof {
        assert(out@ + Seq::<Assignment<T>>::empty() =~= out@);
    }
    out
}

/// The tables of a list of assignments, in order.
pub open spec fn assigned_tables<T>(a: Seq<Assignment<T>>) -> Seq<EntityId> {
    Seq::new(a.len(), |k: int| a[k].table)
}

/// Orders are handed out oldest first and none is lost or duplicated: the
/// tables of the assignments, followed by the orders left, are the orders as
/// they stood.
pub proof fn law_dispatch_keeps_order<T>(pending: Seq<EntityId>, staff: Seq<StaffMember>, choices: Seq<Option<T>>)
    requires
        choices.len() == staff.len(),
    ensures
        assigned_tables(spec_dispatch(pending, staff, choices).1) + spec_dispatch(pending, staff, choices).0 == pending,
    decreases staff.len(),
{
    let r = spec_dispatch(pending, staff, choices);
    if staff.len() == 0 || pending.len() == 0 {
        assert(assigned_tables(r.1) + r.0 =~= pending);
    } else {
        let s = staff[0];
        if s.phase != StaffPhase::Idle {
            law_dispatch_keeps_order(pending, staff.skip(1), choices.skip(1));
        } else {
            match choices[0] {
                Some(t) => {
                    law_dispatch_keeps_order(pending.skip(1), staff.skip(1), choices.skip(1));
                    let rest = spec_dispatch(pending.skip(1), staff.skip(1), choices.skip(1));
                    assert(assigned_tables(r.1) =~= seq![pending[0]] + assigned_tables(rest.1));
                    assert(assigned_tables(r.1) + r.0 =~= seq![pending[0]] + (assigned_tables(rest.1) + rest.0));
                    assert(seq![pending[0]] + pending.skip(1) =~= pending);
                },
                None => {
                    law_dispatch_keeps_order(pending, staff.skip(1), choices.skip(1));
                },
            }
        }
    }
}

/// The nearest free cook slot of each staff member, as a slot id.
pub open spec fn cook_choices(staff: Seq<StaffMember>, slots: Seq<FreeSlot>) -> Seq<Option<EntityId>> {
    Seq::new(
        staff.len(),
        |k: int|
            match nearest_slot(staff[k].pos, slots) {
                Some(i) => Some(slots[i].slot),
                None => None,
            },
    )
}

/// Idle staff take pending orders from `pending` and are sent to the nearest
/// free cook slot (the first of equally near ones); with no free cook slot the
/// order stays at the front. Returns the pickups in staff order.
pub fn staff_pickup(pending: &mut VecDeque<EntityId>, staff: &[StaffMember], cook_slots: &[FreeSlot]) -> (r: Vec<
    Assignment<EntityId>,
>)
    ensures
        (final(pending)@, r@) == spec_dispatch(old(pending)@, staff@, cook_choices(staff@, cook_slots@)),
{
    let mut cells: Vec<(i32, i32)> = Vec::new();
    let mut k: usize = 0;
    while k < cook_slots.len()
        invariant
            0 <= k <= cook_slots@.len(),
            cells@ == slot_cells(cook_slots@).subrange(0, k as int),
        decreases cook_slots@.len() - k,
    {
        cells.push(cook_slots[k].cell);
        k = k + 1;
    }
    assert(cells@ == slot_cells(cook_slots@));
    let all = all_eligible(cells.len());
    let mut choices: Vec<Option<EntityId>> = Vec::new();
    let mut i: usize = 0;
    while i < staff.len()
        invariant
            0 <= i <= staff@.len(),
            cells@ == slot_cells(cook_slots@),
            all@ == all_true(cells@.len() as int),
            choices@ == cook_choices(staff@, cook_slots@).subrange(0, i as int),
        decreases staff@.len() - i,
    {
        let c = match nearest_cell(staff[i].pos, cells.as_slice(), all.as_slice(), Some(0x7fff_ffffu64)) {
            Some(j) => Some(cook_slots[j].slot),
            None => None,
        };
        choices.push(c);
        i = i + 1;
    }
    assert(choices@ == cook_choices(staff@, cook_slots@));
    dispatch_orders(pending, staff, choices.as_slice())
}

/// How an arrival at a slot ends for a walking staff member.
#[derive(Clone, Copy, Debug, PartialEq, Eq, Structural)]
pub enum SlotArrival {
    /// The way was not found: drop the slot and become idle.
    Abort,
    /// Occupy the slot and move on to the given phase.
    Start(StaffPhase),
}

/// A cook who reached the stove slot starts cooking (the stove cooks too);
/// a failed navigation sends the cook back to idle.
pub fn staff_arrive_at_stove(phase: StaffPhase, nav_failed: bool) -> (r: Option<SlotArrival>)
    ensures
        r == if phase != StaffPhase::WalkingToKitchen {
            None
        } else if nav_failed {
            Some(SlotArrival::Abort)
        } else {
            Some(SlotArrival::Start(StaffPhase::Cooking))
        },
{
    if phase != StaffPhase::WalkingToKitchen {
        return None;
    }
    if nav_failed {
        Some(SlotArrival::Abort)
    } else {
        Some(SlotArrival::Start(StaffPhase::Cooking))
    }
}

/// A free delivery slot and the table it belongs to.
#[derive(Clone, Copy, Debug, PartialEq, Eq)]
pub struct DeliverSlot {
    pub slot: EntityId,
    pub table: EntityId,
}

pub open spec fn zero_keys(n: int) -> Seq<u64> {
    Seq::new(n as nat, |k: int| 0u64)
}

pub open spec fn at_table(slots: Seq<DeliverSlot>, table: EntityId) -> Seq<bool> {
    Seq::new(slots.len(), |k: int| slots[k].table == table)
}

/// The first free delivery slot of the target table.
pub open spec fn spec_deliver_slot(table: EntityId, slots: Seq<DeliverSlot>) -> Option<EntityId> {
    match spec_first_min(zero_keys(slots.len() as int), at_table(slots, table), None) {
        Some(i) => Some(slots[i].slot),
        None => None,
    }
}

/// When the cooking timer ran out: the delivery slot to head for, the first
/// free one of the target table. With none the cook keeps waiting.
pub fn staff_cooking(table: EntityId, deliver_slots: &[DeliverSlot]) -> (r: Option<EntityId>)
    ensures
        r == spec_deliver_slot(table, deliver_slots@),
{
    let mut keys: Vec<u64> = Vec::new();
    let mut ok: Vec<bool> = Vec::new();
    let mut i: usize = 0;
    while i < deliver_slots.len()
        invariant
            0 <= i <= deliver_slots@.len(),
            keys@ == zero_keys(deliver_slots@.len() as int).subrange(0, i as int),
            ok@ == at_table(deliver_slots@, table).subrange(0, i as int),
        decreases deliver_slots@.len() - i,
    {
        keys.push(0);
        ok.push(deliver_slots[i].table == table);
        i = i + 1;
    }
    proof {
        assert(keys@ == zero_keys(deliver_slots@.len() as int));
        assert(ok@ == at_table(deliver_slots@, table));
    }
    match first_min(keys.as_slice(), ok.as_slice(), None) {
        Some(j) => Some(deliver_slots[j].slot),
        None => None,
    }
}

/// A delivering staff member at the table's slot gives up the cell's
/// reservation and becomes idle; the table is served unless the navigation
/// failed. The result says whether the table is served; `None` for staff in
/// other phases, which are left alone.
pub fn staff_deliver(grid: &mut GridLayers, staff: EntityId, pos: (i32, i32), phase: StaffPhase, nav_failed: bool) -> (r: Option<bool>)
    requires
        old(grid).wf(),
    ensures
        final(grid).wf(),
        phase != StaffPhase::Delivering ==> r is None && *final(grid) == *old(grid),
        phase == StaffPhase::Delivering ==> {
            &&& r == Some(!nav_failed)
            &&& final(grid).same_but_reservations(old(grid))
            &&& forall|a: int, b: int|
                #![trigger final(grid).reserved_at(a, b)]
                final(grid).reserved_at(a, b) == if a == pos.0 && b == pos.1 && held_by(old(grid).reserved_at(a, b), staff) {
                    None
                } else {
                    old(grid).reserved_at(a, b)
                }
        },
{
    if phase != StaffPhase::Delivering {
        return None;
    }
    grid.release_cell(pos.0, pos.1, staff);
    Some(!nav_failed)
}

/// A free checkout slot, its register and its cell.
#[derive(Clone, Copy, Debug, PartialEq, Eq)]
pub struct CheckoutSlot {
    pub slot: EntityId,
    pub register: EntityId,
    pub cell: (i32, i32),
}

pub open spec fn checkout_cells(slots: Seq<CheckoutSlot>) -> Seq<(i32, i32)> {
    Seq::new(slots.len(), |k: int| slots[k].cell)
}

/// A checkout slot qualifies when its register has a queued customer and the
/// staff member does not stand on it already.
pub open spec fn checkout_ok(pos: (i32, i32), slots: Seq<CheckoutSlot>, busy: Seq<EntityId>) -> Seq<bool> {
    Seq::new(slots.len(), |k: int| busy.contains(slots[k].register) && slots[k].cell != pos)
}

/// The checkout slot an idle staff member at `pos` heads for.
pub open spec fn spec_checkout_start(pos: (i32, i32), slots: Seq<CheckoutSlot>, busy: Seq<EntityId>) -> Option<EntityId> {
    match spec_first_min(distances(pos, checkout_cells(slots)), checkout_ok(pos, slots, busy), dist_cap()) {
        Some(i) => Some(slots[i].slot),
        None => None,
    }
}

/// A cashier heads for a checkout slot of a register with queued customers
/// that it does not already stand on, and for no such slot farther away than
/// another one.
pub proof fn law_checkout_at_nearest_busy_register(pos: (i32, i32), slots: Seq<CheckoutSlot>, busy: Seq<EntityId>)
    ensures
        spec_checkout_start(pos, slots, busy) matches Some(e) ==> exists|i: int|
            0 <= i < slots.len() && (#[trigger] slots[i]).slot == e && busy.contains(slots[i].register) && slots[i].cell
                != pos && forall|j: int|
                0 <= j < slots.len() && busy.contains(slots[j].register) && slots[j].cell != pos ==> manhattan(
                    pos,
                    slots[i].cell,
                ) <= manhattan(pos, (#[trigger] slots[j]).cell),
{
    lemma_nearest_choice(pos, checkout_cells(slots), checkout_ok(pos, slots, busy), dist_cap());
    if let Some(e) = spec_checkout_start(pos, slots, busy) {
        let i = spec_first_min(distances(pos, checkout_cells(slots)), checkout_ok(pos, slots, busy), dist_cap())->Some_0;
        assert(checkout_ok(pos, slots, busy)[i]);
        assert(checkout_cells(slots)[i] == slots[i].cell);
        assert forall|j: int| 0 <= j < slots.len() && busy.contains(slots[j].register) && slots[j].cell != pos implies manhattan(
            pos,
            slots[i].cell,
        ) <= manhattan(pos, (#[trigger] slots[j]).cell) by {
            assert(checkout_ok(pos, slots, busy)[j]);
            assert(checkout_cells(slots)[j] == slots[j].cell);
        }
    }
}

fn contains_entity(list: &[EntityId], e: EntityId) -> (r: bool)
    ensures
        r == list@.contains(e),
{
    let mut i: usize = 0;
    while i < list.len()
        invariant
            0 <= i <= list@.len(),
            forall|k: int| 0 <= k < i ==> list@[k] != e,
        decreases list@.len() - i,
    {
        if list[i] == e {
            assert(list@[i as int] == e);
            return true;
        }
        i = i + 1;
    }
    false
}

/// For an idle staff member at `pos`: the nearest free checkout slot of a
/// register with queued customers (`busy` lists the registers having an
/// occupied queue slot), skipping a slot the staff member stands on.
pub fn staff_checkout_start(pos: (i32, i32), slots: &[CheckoutSlot], busy: &[EntityId]) -> (r: Option<EntityId>)
    ensures
        r == spec_checkout_start(pos, slots@, busy@),
{
    let mut cells: Vec<(i32, i32)> = Vec::new();
    let mut ok: Vec<bool> = Vec::new();
    let mut i: usize = 0;
    while i < slots.len()
        invariant
            0 <= i <= slots@.len(),
            cells@ == checkout_cells(slots@).subrange(0, i as int),
            ok@ == checkout_ok(pos, slots@, busy@).subrange(0, i as int),
        decreases slots@.len() - i,
    {
        let s = slots[i];
        let here = s.cell.0 == pos.0 && s.cell.1 == pos.1;
        ok.push(contains_entity(busy, s.register) && !here);
        cells.push(s.cell);
        i = i + 1;
    }
    proof {
        assert(cells@ == checkout_cells(slots@));
        assert(ok@ == checkout_ok(pos, slots@, busy@));
    }
    match nearest_cell(pos, cells.as_slice(), ok.as_slice(), Some(0x7fff_ffffu64)) {
        Some(j) => Some(slots[j].slot),
        None => None,
    }
}

/// A staff member walking to a register who reached a checkout slot occupies
/// it and starts the checkout timer; a failed navigation ends in idle; a
/// slot that is not a checkout slot is ignored.
pub fn staff_arrive_at_checkout(phase: StaffPhase, nav_failed: bool, is_checkout_slot: bool) -> (r: Option<SlotArrival>)
    ensures
        r == if phase != StaffPhase::WalkingToRegister {
            None
        } else if nav_failed {
            Some(SlotArrival::Abort)
        } else if !is_checkout_slot {
            None
        } else {
            Some(SlotArrival::Start(StaffPhase::CheckingOut))
        },
{
    if phase != StaffPhase::WalkingToRegister {
        return None;
    }
    if nav_failed {
        return Some(SlotArrival::Abort);
    }
    if !is_checkout_slot {
        return None;
    }
    Some(SlotArrival::Start(StaffPhase::CheckingOut))
}

/// A queue slot of some register and who occupies it.
#[derive(Clone, Copy, Debug, PartialEq, Eq)]
pub struct QueueEntry {
    pub slot: EntityId,
    pub register: EntityId,
    pub index: usize,
    pub occupant: Option<EntityId>,
}

pub open spec fn queue_index_keys(q: Seq<QueueEntry>) -> Seq<u64> {
    Seq::new(q.len(), |k: int| q[k].index as u64)
}

pub open spec fn waiting_at(q: Seq<QueueEntry>, register: EntityId) -> Seq<bool> {
    Seq::new(q.len(), |k: int| q[k].register == register && q[k].occupant is Some)
}

/// The front-most occupied queue slot of the register (index below
/// `usize::MAX`) and its customer.
pub open spec fn spec_front_customer(register: EntityId, q: Seq<QueueEntry>) -> Option<(EntityId, EntityId)> {
    match spec_first_min(queue_index_keys(q), waiting_at(q, register), Some(usize::MAX as u64)) {
        Some(i) => Some((q[i].slot, q[i].occupant->Some_0)),
        None => None,
    }
}

/// When the checkout timer ran out: the customer at the front of the
/// register's queue is served (the result names the slot and the customer,
/// who then leaves for the exit), and the staff member gives up the checkout
/// cell's reservation and becomes idle.
pub fn staff_checkout_tick(
    grid: &mut GridLayers,
    staff: EntityId,
    register: EntityId,
    checkout_cell: (i32, i32),
    queue: &[QueueEntry],
) -> (r: Option<(EntityId, EntityId)>)
    requires
        old(grid).wf(),
    ensures
        r == spec_front_customer(register, queue@),
        final(grid).wf(),
        final(grid).same_but_reservations(old(grid)),
        forall|a: int, b: int|
            #![trigger final(grid).reserved_at(a, b)]
            final(grid).reserved_at(a, b) == if a == checkout_cell.0 && b == checkout_cell.1 && held_by(
                old(grid).reserved_at(a, b),
                staff,
            ) {
                None
            } else {
                old(grid).reserved_at(a, b)
            },
{
    let mut keys: Vec<u64> = Vec::new();
    let mut ok: Vec<bool> = Vec::new();
    let mut i: usize = 0;
    while i < queue.len()
        invariant
            0 <= i <= queue@.len(),
            keys@ == queue_index_keys(queue@).subrange(0, i as int),
            ok@ == waiting_at(queue@, register).subrange(0, i as int),
        decreases queue@.len() - i,
    {
        keys.push(queue[i].index as u64);
        ok.push(queue[i].register == register && queue[i].occupant.is_some());
        i = i + 1;
    }
    proof {
        assert(keys@ == queue_index_keys(queue@));
        assert(ok@ == waiting_at(queue@, register));
    }
    let front = match first_min(keys.as_slice(), ok.as_slice(), Some(usize::MAX as u64)) {
        Some(j) => {
            let e = queue[j];
            assert(ok@[j as int]);
            match e.occupant {
                Some(c) => Some((e.slot, c)),
                None => None,
            }
        },
        None => None,
    };
    grid.release_cell(checkout_cell.0, checkout_cell.1, staff);
    front
}

} // verus!
