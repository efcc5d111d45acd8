//! Register flow driven by zones: the L-shaped customer queue in front of a
//! register, the cashier's cell behind it, and the cashier's checkout cycle.

use vstd::prelude::*;
use crate::base::components::{EntityId, GridDirection, EXIT_POSITION};
use crate::sim::components::{ApplianceGeometry, CustomerPhase, StaffPhase};
use crate::sim::small_lists::{cells_drop_front, cells_new, cells_of, cells_push, list_room, CellList};

verus! {

/// Unit step to the right of the register's facing direction.
pub open spec fn right_dir(d: GridDirection) -> (int, int) {
    match d {
        GridDirection::PosZ => (1, 0),
        GridDirection::NegZ => (-1, 0),
        GridDirection::PosX => (0, -1),
        GridDirection::NegX => (0, 1),
    }
}

/// Unit step along the register's facing direction.
pub open spec fn forward_dir(d: GridDirection) -> (int, int) {
    match d {
        GridDirection::PosZ => (0, 1),
        GridDirection::NegZ => (0, -1),
        GridDirection::PosX => (1, 0),
        GridDirection::NegX => (-1, 0),
    }
}

/// Unit step behind the register.
pub open spec fn back_dir(d: GridDirection) -> (int, int) {
    match d {
        GridDirection::PosZ => (0, -1),
        GridDirection::NegZ => (0, 1),
        GridDirection::PosX => (-1, 0),
        GridDirection::NegX => (1, 0),
    }
}

/// Cells taken along the right side before the queue turns forward.
pub open spec fn right_count(length: int) -> int {
    if length < 2 {
        length
    } else {
        2
    }
}

/// The `k`-th cell of the side leg: `right + k` cells to the right of the anchor.
pub open spec fn side_cell(anchor: (i32, i32), geo: ApplianceGeometry, k: int) -> (int, int) {
    let r = right_dir(geo.direction);
    (anchor.0 + r.0 * (geo.right + k), anchor.1 + r.1 * (geo.right + k))
}

/// The corner where the queue turns: the last side cell, or the anchor when
/// the queue is empty.
pub open spec fn turn_cell(anchor: (i32, i32), geo: ApplianceGeometry, length: int) -> (int, int) {
    if right_count(length) > 0 {
        side_cell(anchor, geo, right_count(length) - 1)
    } else {
        (anchor.0 as int, anchor.1 as int)
    }
}

/// Cell `k` of the queue zone, as whole numbers.
pub open spec fn zone_cell(anchor: (i32, i32), geo: ApplianceGeometry, length: int, k: int) -> (int, int) {
    let rc = right_count(length);
    if k < rc {
        side_cell(anchor, geo, k)
    } else {
        let t = turn_cell(anchor, geo, length);
        let f = forward_dir(geo.direction);
        (t.0 + f.0 * (k - rc + 1), t.1 + f.1 * (k - rc + 1))
    }
}

/// The queue zone: `length` cells, first along the right side of the register
/// (up to two, starting just past its right edge), then forward from there.
pub open spec fn queue_zone(anchor: (i32, i32), geo: ApplianceGeometry, length: int) -> Seq<(i32, i32)> {
    Seq::new(
        length as nat,
        |k: int| {
            let c = zone_cell(anchor, geo, length, k);
            (c.0 as i32, c.1 as i32)
        },
    )
}

/// The zone and the arithmetic that builds it fit in `i32`.
pub open spec fn queue_zone_fits(anchor: (i32, i32), geo: ApplianceGeometry, length: int) -> bool {
    &&& 0 <= length <= i32::MAX
    &&& length < list_room()
    &&& length > 0 ==> i32::MIN < geo.right && geo.right + right_count(length) <= i32::MAX
    &&& forall|k: int|
        0 <= k < length ==> {
            let c = #[trigger] zone_cell(anchor, geo, length, k);
            i32::MIN <= c.0 <= i32::MAX && i32::MIN <= c.1 <= i32::MAX
        }
}

/// Multiplying by a unit step.
proof fn lemma_unit_mul(d: int, v: int)
    requires
        -1 <= d <= 1,
    ensures
        d * v == if d == 0 { 0 } else if d == 1 { v } else { -v },
{
    assert(d * v == if d == 0 { 0 } else if d == 1 { v } else { -v }) by (nonlinear_arith)
        requires
            -1 <= d <= 1,
    ;
}

/// The customer queue zone of a register: an L-shaped line from its
/// front-right corner, two cells to the right, then forward.
pub fn register_queue_zone(anchor: (i32, i32), geo: &ApplianceGeometry, length: u32) -> (r: CellList)
    requires
        queue_zone_fits(anchor, *geo, length as int),
    ensures
        cells_of(r) == queue_zone(anchor, *geo, length as int),
{
    let mut cells = cells_new();
    let (rdx, rdz): (i32, i32) = match geo.direction {
        GridDirection::PosZ => (1, 0),
        GridDirection::NegZ => (-1, 0),
        GridDirection::PosX => (0, -1),
        GridDirection::NegX => (0, 1),
    };
    let (fdx, fdz): (i32, i32) = match geo.direction {
        GridDirection::PosZ => (0, 1),
        GridDirection::NegZ => (0, -1),
        GridDirection::PosX => (1, 0),
        GridDirection::NegX => (-1, 0),
    };
    let rc: u32 = if length < 2 { length } else { 2 };
    let ghost zone = queue_zone(anchor, *geo, length as int);
    let mut last: (i32, i32) = anchor;
    let mut i: u32 = 1;
    while i <= rc
        invariant
            1 <= i <= rc + 1,
            rc == right_count(length as int),
            rc <= length,
            queue_zone_fits(anchor, *geo, length as int),
            zone == queue_zone(anchor, *geo, length as int),
            (rdx as int, rdz as int) == right_dir(geo.direction),
            cells_of(cells) == zone.subrange(0, i - 1),
            i == 1 ==> last == anchor,
            i > 1 ==> (last.0 as int, last.1 as int) == side_cell(anchor, *geo, i - 2),
        decreases rc + 1 - i,
    {
        let ghost k = i - 1;
        let v: i32 = geo.right + (i as i32) - 1;
        let ghost c = zone_cell(anchor, *geo, length as int, k as int);
        proof {
            assert(-1 <= rdx <= 1 && -1 <= rdz <= 1);
            lemma_unit_mul(rdx as int, v as int);
            lemma_unit_mul(rdz as int, v as int);
            lemma_unit_mul(right_dir(geo.direction).0, geo.right + k);
            lemma_unit_mul(right_dir(geo.direction).1, geo.right + k);
            assert(rdx * v == right_dir(geo.direction).0 * (geo.right + k));
            assert(rdz * v == right_dir(geo.direction).1 * (geo.right + k));
        }
        let cell = (anchor.0 + rdx * v, anchor.1 + rdz * v);
        proof {
            assert(zone[k as int] == cell);
            assert(cells_of(cells).push(cell) == zone.subrange(0, i as int));
        }
        cells_push(&mut cells, cell);
        last = cell;
        i = i + 1;
    }
    let rest: u32 = length - rc;
    let mut j: u32 = 1;
    while j <= rest
        invariant
            1 <= j <= rest + 1,
            rc == right_count(length as int),
            rest == length - rc,
            queue_zone_fits(anchor, *geo, length as int),
            zone == queue_zone(anchor, *geo, length as int),
            (fdx as int, fdz as int) == forward_dir(geo.direction),
            (last.0 as int, last.1 as int) == turn_cell(anchor, *geo, length as int),
            cells_of(cells) == zone.subrange(0, rc + j - 1),
        decreases rest + 1 - j,
    {
        let ghost k = rc + j - 1;
        let ghost c = zone_cell(anchor, *geo, length as int, k as int);
        let jj = j as i32;
        proof {
            assert(-1 <= fdx <= 1 && -1 <= fdz <= 1);
            lemma_unit_mul(fdx as int, jj as int);
            lemma_unit_mul(fdz as int, jj as int);
            lemma_unit_mul(forward_dir(geo.direction).0, k - rc + 1);
            lemma_unit_mul(forward_dir(geo.direction).1, k - rc + 1);
            assert(fdx * jj == forward_dir(geo.direction).0 * (k - rc + 1));
            assert(fdz * jj == forward_dir(geo.direction).1 * (k - rc + 1));
        }
        let cell = (last.0 + fdx * jj, last.1 + fdz * jj);
        proof {
            assert(zone[k as int] == cell);
            assert(cells_of(cells).push(cell) == zone.subrange(0, rc + j));
        }
        cells_push(&mut cells, cell);
        j = j + 1;
    }
    proof {
        assert(zone.subrange(0, length as int) == zone);
    }
    cells
}

/// The queue zone is an unbroken line: each cell is a neighbour of the one
/// before it.
pub proof fn law_queue_zone_is_connected(anchor: (i32, i32), geo: ApplianceGeometry, length: int, k: int)
    requires
        queue_zone_fits(anchor, geo, length),
        0 <= k < length - 1,
    ensures
        ({
            let a = zone_cell(anchor, geo, length, k);
            let b = zone_cell(anchor, geo, length, k + 1);
            (if a.0 >= b.0 { a.0 - b.0 } else { b.0 - a.0 }) + (if a.1 >= b.1 { a.1 - b.1 } else { b.1 - a.1 }) == 1
        }),
{
    let r = right_dir(geo.direction);
    let f = forward_dir(geo.direction);
    let rc = right_count(length);
    lemma_unit_mul(r.0, geo.right + k);
    lemma_unit_mul(r.1, geo.right + k);
    lemma_unit_mul(r.0, geo.right + k + 1);
    lemma_unit_mul(r.1, geo.right + k + 1);
    lemma_unit_mul(f.0, k - rc + 1);
    lemma_unit_mul(f.1, k - rc + 1);
    lemma_unit_mul(f.0, k + 1 - rc + 1);
    lemma_unit_mul(f.1, k + 1 - rc + 1);
    lemma_unit_mul(r.0, geo.right + rc - 1);
    lemma_unit_mul(r.1, geo.right + rc - 1);
}

/// The cashier cell: one step behind the register's anchor.
pub open spec fn staff_cell(anchor: (i32, i32), geo: ApplianceGeometry) -> (int, int) {
    let b = back_dir(geo.direction);
    (anchor.0 + b.0, anchor.1 + b.1)
}

pub open spec fn staff_cell_fits(anchor: (i32, i32), geo: ApplianceGeometry) -> bool {
    let c = staff_cell(anchor, geo);
    i32::MIN <= c.0 <= i32::MAX && i32::MIN <= c.1 <= i32::MAX
}

/// The staff zone of a register: the single cell behind it.
pub fn register_staff_zone(anchor: (i32, i32), geo: &ApplianceGeometry) -> (r: CellList)
    requires
        staff_cell_fits(anchor, *geo),
    ensures
        cells_of(r) == seq![(staff_cell(anchor, *geo).0 as i32, staff_cell(anchor, *geo).1 as i32)],
{
    let (bx, bz): (i32, i32) = match geo.direction {
        GridDirection::PosZ => (0, -1),
        GridDirection::NegZ => (0, 1),
        GridDirection::PosX => (-1, 0),
        GridDirection::NegX => (1, 0),
    };
    let mut cells = cells_new();
    let c = (anchor.0 + bx, anchor.1 + bz);
    cells_push(&mut cells, c);
    proof {
        assert(Seq::<(i32, i32)>::empty().push(c) =~= seq![c]);
    }
    cells
}

/// Length of the customer queue zone of a register.
pub const QUEUE_ZONE_LENGTH: u32 = 5;

/// The zones of a register with `queued` customers in line: the queue cells
/// still free (the first `queued` are taken) and the cashier cell.
pub fn update_register_zones(anchor: (i32, i32), geo: &ApplianceGeometry, queued: usize) -> (r: (CellList, CellList))
    requires
        queue_zone_fits(anchor, *geo, QUEUE_ZONE_LENGTH as int),
        staff_cell_fits(anchor, *geo),
    ensures
        cells_of(r.0) == queue_zone(anchor, *geo, QUEUE_ZONE_LENGTH as int).skip(
            if queued < QUEUE_ZONE_LENGTH { queued as int } else { QUEUE_ZONE_LENGTH as int },
        ),
        cells_of(r.1) == seq![(staff_cell(anchor, *geo).0 as i32, staff_cell(anchor, *geo).1 as i32)],
{
    let mut cells = register_queue_zone(anchor, geo, QUEUE_ZONE_LENGTH);
    let taken: usize = if queued < 5 { queued } else { 5 };
    cells_drop_front(&mut cells, taken);
    proof {
        let z = queue_zone(anchor, *geo, QUEUE_ZONE_LENGTH as int);
        assert(z.subrange(taken as int, z.len() as int) =~= z.skip(taken as int));
    }
    (cells, register_staff_zone(anchor, geo))
}

fn holds(cells: &Vec<(i32, i32)>, pos: (i32, i32)) -> (r: bool)
    ensures
        r == cells@.contains(pos),
{
    let mut i: usize = 0;
    while i < cells.len()
        invariant
            0 <= i <= cells@.len(),
            forall|k: int| 0 <= k < i ==> cells@[k] != pos,
        decreases cells@.len() - i,
    {
        if cells[i].0 == pos.0 && cells[i].1 == pos.1 {
            assert(cells@[i as int] == pos);
            return true;
        }
        i = i + 1;
    }
    false
}

/// A customer walking to a register who arrived at `pos` joins the queue of
/// the first register whose customer zone holds `pos` (and then waits for
/// payment); the result is that register's position in `zones`.
pub fn customer_arrive_at_register_system(phase: CustomerPhase, pos: (i32, i32), zones: &[Vec<(i32, i32)>]) -> (r: Option<usize>)
    ensures
        phase != CustomerPhase::WalkingToRegister ==> r is None,
        phase == CustomerPhase::WalkingToRegister ==> match r {
            Some(k) => {
                &&& k < zones@.len()
                &&& zones@[k as int]@.contains(pos)
                &&& forall|j: int| 0 <= j < k ==> !(#[trigger] zones@[j])@.contains(pos)
            },
            None => forall|j: int| 0 <= j < zones@.len() ==> !(#[trigger] zones@[j])@.contains(pos),
        },
{
    if phase != CustomerPhase::WalkingToRegister {
        return None;
    }
    let mut i: usize = 0;
    while i < zones.len()
        invariant
            0 <= i <= zones@.len(),
            phase == CustomerPhase::WalkingToRegister,
            forall|j: int| 0 <= j < i ==> !(#[trigger] zones@[j])@.contains(pos),
        decreases zones@.len() - i,
    {
        if holds(&zones[i], pos) {
            return Some(i);
        }
        i = i + 1;
    }
    None
}

/// What the cashier sees of a register: its first staff-zone cell and the
/// customer at the head of its queue.
#[derive(Clone, Copy, Debug, PartialEq, Eq)]
pub struct RegisterLine {
    pub staff_cell: Option<(i32, i32)>,
    pub head: Option<EntityId>,
}

/// One frame of a cashier.
#[derive(Clone, Copy, Debug, PartialEq, Eq)]
pub enum CheckoutStep {
    Unchanged,
    /// Take the head customer of this register's queue and walk to `target`.
    Take { register: usize, customer: EntityId, target: (i32, i32) },
    /// Arrived: start the checkout timer.
    StartCheckout,
    /// Timer done: the processed customer, if any, leaves for the exit; the
    /// cashier becomes idle.
    Finish { leaving: Option<EntityId>, exit: (i32, i32) },
}

/// Cashier decision: an idle cashier takes the head customer of the first
/// register with a queue and walks to its staff cell (staying put when it has
/// none); an arrived one starts checking out; one whose timer ran out sends
/// the customer to the exit and becomes idle.
pub fn staff_checkout_system(
    phase: StaffPhase,
    pos: (i32, i32),
    nav_complete: bool,
    timer_done: bool,
    processing: Option<EntityId>,
    lines: &[RegisterLine],
) -> (r: CheckoutStep)
    ensures
        phase == StaffPhase::Idle ==> match r {
            CheckoutStep::Take { register, customer, target } => {
                &&& register < lines@.len()
                &&& lines@[register as int].head == Some(customer)
                &&& forall|j: int| 0 <= j < register ==> (#[trigger] lines@[j]).head is None
                &&& target == match lines@[register as int].staff_cell {
                    Some(c) => c,
                    None => pos,
                }
            },
            CheckoutStep::Unchanged => forall|j: int| 0 <= j < lines@.len() ==> (#[trigger] lines@[j]).head is None,
            _ => false,
        },
        phase == StaffPhase::WalkingToRegister ==> r == if nav_complete {
            CheckoutStep::StartCheckout
        } else {
            CheckoutStep::Unchanged
        },
        phase == StaffPhase::CheckingOut ==> r == if timer_done {
            CheckoutStep::Finish { leaving: processing, exit: EXIT_POSITION }
        } else {
            CheckoutStep::Unchanged
        },
        phase != StaffPhase::Idle && phase != StaffPhase::WalkingToRegister && phase != StaffPhase::CheckingOut
            ==> r == CheckoutStep::Unchanged,
{
    match phase {
        StaffPhase::Idle => {
            let mut i: usize = 0;
            while i < lines.len()
                invariant
                    0 <= i <= lines@.len(),
                    phase == StaffPhase::Idle,
                    forall|j: int| 0 <= j < i ==> (#[trigger] lines@[j]).head is None,
                decreases lines@.len() - i,
            {
                let line = lines[i];
                match line.head {
                    Some(c) => {
                        let target = match line.staff_cell {
                            Some(t) => t,
                            None => pos,
                        };
                        return CheckoutStep::Take { register: i, customer: c, target };
                    },
                    None => {},
                }
                i = i + 1;
            }
            CheckoutStep::Unchanged
        },
        StaffPhase::WalkingToRegister => {
            if nav_complete {
                CheckoutStep::StartCheckout
            } else {
                CheckoutStep::Unchanged
            }
        },
        StaffPhase::CheckingOut => {
            if timer_done {
                CheckoutStep::Finish { leaving: processing, exit: EXIT_POSITION }
            } else {
                CheckoutStep::Unchanged
            }
        },
        _ => CheckoutStep::Unchanged,
    }
}

} // verus!
