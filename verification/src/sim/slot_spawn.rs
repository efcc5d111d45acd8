//! Placement of the service slots that agents walk to: which slots an
//! appliance gets, where each one lies, and how register queues grow and
//! shrink.

use vstd::prelude::*;
use crate::base::components::{spec_facing_offset, GridDirection};
use crate::sim::world::GridLayers;
use crate::sim::components::{facing, half_of, half_toward_zero, ApplianceGeometry, SlotOffset, SlotPosition};

verus! {

/// The offset and the anchor plus the offset fit in `i32`.
pub open spec fn slot_fits(anchor: (i32, i32), off: (int, int)) -> bool {
    &&& i32::MIN <= off.0 <= i32::MAX
    &&& i32::MIN <= off.1 <= i32::MAX
    &&& i32::MIN <= anchor.0 + off.0 <= i32::MAX
    &&& i32::MIN <= anchor.1 + off.1 <= i32::MAX
}

/// A slot at `off` from `anchor`.
pub open spec fn slot_at(anchor: (i32, i32), off: (int, int)) -> (SlotOffset, SlotPosition) {
    (
        SlotOffset { dx: off.0 as i32, dz: off.1 as i32 },
        SlotPosition { x: (anchor.0 + off.0) as i32, z: (anchor.1 + off.1) as i32 },
    )
}

fn place_slot(anchor: (i32, i32), dx: i32, dz: i32) -> (r: (SlotOffset, SlotPosition))
    requires
        slot_fits(anchor, (dx as int, dz as int)),
    ensures
        r == slot_at(anchor, (dx as int, dz as int)),
{
    (SlotOffset { dx, dz }, SlotPosition { x: anchor.0 + dx, z: anchor.1 + dz })
}

/// The neighbour of `pos` on `side` lies inside the grid and no entity
/// stands on its floor.
pub open spec fn side_free(g: GridLayers, pos: (i32, i32), side: GridDirection) -> bool {
    let o = facing(side);
    g.in_bounds(pos.0 + o.0, pos.1 + o.1) && g.floor_at(pos.0 + o.0, pos.1 + o.1) is None
}

/// `side` when its neighbour is free, else nothing.
pub open spec fn side_if(g: GridLayers, pos: (i32, i32), side: GridDirection) -> Seq<GridDirection> {
    if side_free(g, pos, side) {
        seq![side]
    } else {
        Seq::empty()
    }
}

/// The sides of a table that get a delivery slot, in the order +Z, -X, -Z, +X.
pub open spec fn table_sides(g: GridLayers, pos: (i32, i32)) -> Seq<GridDirection> {
    side_if(g, pos, GridDirection::PosZ) + side_if(g, pos, GridDirection::NegX) + side_if(g, pos, GridDirection::NegZ)
        + side_if(g, pos, GridDirection::PosX)
}

fn side_ok(grid: &GridLayers, pos: (i32, i32), side: GridDirection) -> (r: bool)
    requires
        grid.wf(),
    ensures
        r == side_free(*grid, pos, side),
{
    let (dx, dz) = side.facing_offset();
    let cx: i64 = pos.0 as i64 + dx as i64;
    let cz: i64 = pos.1 as i64 + dz as i64;
    if cx >= 0 && cx < grid.width as i64 && cz >= 0 && cz < grid.height as i64 {
        grid.floor_entity_at(cx as i32, cz as i32).is_none()
    } else {
        false
    }
}

/// One delivery slot per cardinal side of a table whose neighbouring cell is
/// inside the grid and free of floor entities.
pub fn spawn_table_slots(pos: (i32, i32), grid: &GridLayers) -> (r: Vec<GridDirection>)
    requires
        grid.wf(),
    ensures
        r@ == table_sides(*grid, pos),
{
    let mut out: Vec<GridDirection> = Vec::new();
    let sides = [GridDirection::PosZ, GridDirection::NegX, GridDirection::NegZ, GridDirection::PosX];
    let ghost parts = seq![
        side_if(*grid, pos, GridDirection::PosZ),
        side_if(*grid, pos, GridDirection::NegX),
        side_if(*grid, pos, GridDirection::NegZ),
        side_if(*grid, pos, GridDirection::PosX),
    ];
    let mut k: usize = 0;
    while k < 4
        invariant
            grid.wf(),
            0 <= k <= 4,
            sides@ == seq![GridDirection::PosZ, GridDirection::NegX, GridDirection::NegZ, GridDirection::PosX],
            parts == seq![
                side_if(*grid, pos, GridDirection::PosZ),
                side_if(*grid, pos, GridDirection::NegX),
                side_if(*grid, pos, GridDirection::NegZ),
                side_if(*grid, pos, GridDirection::PosX),
            ],
            out@ == (if k == 0 { Seq::empty() } else if k == 1 { parts[0] } else if k == 2 { parts[0] + parts[1] }
                else if k == 3 { parts[0] + parts[1] + parts[2] } else { parts[0] + parts[1] + parts[2] + parts[3] }),
        decreases 4 - k,
    {
        let side = sides[k];
        if side_ok(grid, pos, side) {
            out.push(side);
        }
        proof {
            assert(parts[k as int] == side_if(*grid, pos, side));
        }
        k = k + 1;
    }
    out
}

/// Cook slot offset: the front-right cell for +Z, otherwise one cell out of
/// the anchor's row in the facing direction, shifted to the right end for -X.
pub open spec fn cook_offset(geo: ApplianceGeometry) -> (int, int) {
    match geo.direction {
        GridDirection::PosZ => (geo.right - 1, 1),
        GridDirection::NegZ => (0, -1),
        GridDirection::PosX => (1, 0),
        GridDirection::NegX => (-1, geo.right - 1),
    }
}

/// Checkout slot offset: one cell behind the middle of the register.
pub open spec fn checkout_offset(geo: ApplianceGeometry) -> (int, int) {
    let h = half_toward_zero(geo.right as int);
    match geo.direction {
        GridDirection::PosZ => (h, -1),
        GridDirection::NegZ => (h, 1),
        GridDirection::PosX => (-1, h),
        GridDirection::NegX => (1, h),
    }
}

/// First queue cell offset: one cell in front of the middle of the register.
pub open spec fn queue_start_offset(geo: ApplianceGeometry) -> (int, int) {
    let h = half_toward_zero(geo.right as int);
    match geo.direction {
        GridDirection::PosZ => (h, 1),
        GridDirection::NegZ => (h, -1),
        GridDirection::PosX => (1, h),
        GridDirection::NegX => (-1, h),
    }
}

/// Offset of queue position `index`: a one-wide line from the first queue
/// cell along the facing direction.
pub open spec fn queue_offset(geo: ApplianceGeometry, index: int) -> (int, int) {
    let s = queue_start_offset(geo);
    let f = facing(geo.direction);
    (s.0 + f.0 * index, s.1 + f.1 * index)
}

/// The queue line of a register fits in `i32` up to position `index`.
pub open spec fn queue_fits(anchor: (i32, i32), geo: ApplianceGeometry, index: int) -> bool {
    &&& 0 <= index <= i32::MAX
    &&& slot_fits(anchor, queue_start_offset(geo))
    &&& slot_fits(anchor, queue_offset(geo, index))
}

/// The world cell of queue position `index` in front of a register.
pub open spec fn spec_queue_cell(anchor: (i32, i32), geo: ApplianceGeometry, index: int) -> (i32, i32) {
    let o = queue_offset(geo, index);
    ((anchor.0 + o.0) as i32, (anchor.1 + o.1) as i32)
}

/// Consecutive queue positions are neighbouring cells, one step apart in the
/// register's facing direction.
pub proof fn law_queue_positions_adjacent(anchor: (i32, i32), geo: ApplianceGeometry, index: int)
    requires
        0 <= index,
        queue_fits(anchor, geo, index + 1),
        queue_fits(anchor, geo, index),
    ensures
        spec_queue_cell(anchor, geo, index + 1).0 == spec_queue_cell(anchor, geo, index).0 + facing(geo.direction).0,
        spec_queue_cell(anchor, geo, index + 1).1 == spec_queue_cell(anchor, geo, index).1 + facing(geo.direction).1,
{
    let f = facing(geo.direction);
    assert(f.0 * (index + 1) == f.0 * index + f.0) by (nonlinear_arith);
    assert(f.1 * (index + 1) == f.1 * index + f.1) by (nonlinear_arith);
}

/// Slot of a stove's cook: offset and world cell from the stove's anchor.
pub fn insert_cook_offset(anchor: (i32, i32), geo: &ApplianceGeometry) -> (r: (SlotOffset, SlotPosition))
    requires
        slot_fits(anchor, cook_offset(*geo)),
    ensures
        r == slot_at(anchor, cook_offset(*geo)),
{
    let right = geo.right;
    let (dx, dz): (i32, i32) = match geo.direction {
        GridDirection::PosZ => (right - 1, 1),
        GridDirection::NegZ => (0, -1),
        GridDirection::PosX => (1, 0),
        GridDirection::NegX => (-1, right - 1),
    };
    place_slot(anchor, dx, dz)
}

/// Slot of a delivery on `side` of a table: one cell out on that side.
pub fn insert_deliver_offset(anchor: (i32, i32), side: GridDirection) -> (r: (SlotOffset, SlotPosition))
    requires
        slot_fits(anchor, facing(side)),
    ensures
        r == slot_at(anchor, facing(side)),
{
    let (dx, dz) = side.facing_offset();
    place_slot(anchor, dx, dz)
}

/// Slot of a register's cashier: behind the middle of the register.
pub fn insert_checkout_offset(anchor: (i32, i32), geo: &ApplianceGeometry) -> (r: (SlotOffset, SlotPosition))
    requires
        slot_fits(anchor, checkout_offset(*geo)),
    ensures
        r == slot_at(anchor, checkout_offset(*geo)),
{
    let h = half_of(geo.right);
    let (dx, dz): (i32, i32) = match geo.direction {
        GridDirection::PosZ => (h, -1),
        GridDirection::NegZ => (h, 1),
        GridDirection::PosX => (-1, h),
        GridDirection::NegX => (1, h),
    };
    place_slot(anchor, dx, dz)
}

/// Slot of a seated customer: the chair cell itself.
pub fn insert_sit_offset(anchor: (i32, i32)) -> (r: (SlotOffset, SlotPosition))
    ensures
        r == slot_at(anchor, (0, 0)),
{
    place_slot(anchor, 0, 0)
}

/// The world cell of queue position `index` in front of a register.
pub fn queue_cell(anchor: (i32, i32), geo: &ApplianceGeometry, index: usize) -> (r: (i32, i32))
    requires
        queue_fits(anchor, *geo, index as int),
    ensures
        r == spec_queue_cell(anchor, *geo, index as int),
{
    let h = half_of(geo.right);
    let (sdx, sdz): (i32, i32) = match geo.direction {
        GridDirection::PosZ => (h, 1),
        GridDirection::NegZ => (h, -1),
        GridDirection::PosX => (1, h),
        GridDirection::NegX => (-1, h),
    };
    let (fdx, fdz) = geo.direction.facing_offset();
    let start_x = anchor.0 + sdx;
    let start_z = anchor.1 + sdz;
    let idx = index as i32;
    proof {
        assert(fdx * idx == facing(geo.direction).0 * index) by (nonlinear_arith)
            requires
                idx == index,
                fdx == facing(geo.direction).0,
        ;
        assert(fdz * idx == facing(geo.direction).1 * index) by (nonlinear_arith)
            requires
                idx == index,
                fdz == facing(geo.direction).1,
        ;
        assert(-1 <= fdx <= 1 && -1 <= fdz <= 1);
        assert(-i32::MAX <= fdx * idx <= i32::MAX) by (nonlinear_arith)
            requires
                -1 <= fdx <= 1,
                0 <= idx <= i32::MAX,
        ;
        assert(-i32::MAX <= fdz * idx <= i32::MAX) by (nonlinear_arith)
            requires
                -1 <= fdz <= 1,
                0 <= idx <= i32::MAX,
        ;
    }
    (start_x + fdx * idx, start_z + fdz * idx)
}

/// Slot of queue position `index`: offset and world cell; recomputed the same
/// way whenever the position's index changes.
pub fn insert_queue_offset(anchor: (i32, i32), geo: &ApplianceGeometry, index: usize) -> (r: (SlotOffset, SlotPosition))
    requires
        queue_fits(anchor, *geo, index as int),
    ensures
        r == slot_at(anchor, queue_offset(*geo, index as int)),
{
    let (px, pz) = queue_cell(anchor, geo, index);
    place_slot(anchor, px - anchor.0, pz - anchor.1)
}

/// Same computation as `insert_queue_offset`, for a queue slot whose index changed.
pub fn reindex_queue_slots(anchor: (i32, i32), geo: &ApplianceGeometry, index: usize) -> (r: (SlotOffset, SlotPosition))
    requires
        queue_fits(anchor, *geo, index as int),
    ensures
        r == slot_at(anchor, queue_offset(*geo, index as int)),
{
    insert_queue_offset(anchor, geo, index)
}

/// Largest index among the occupied queue slots, if any.
pub open spec fn max_occupied(slots: Seq<(usize, bool)>) -> Option<int>
    decreases slots.len(),
{
    if slots.len() == 0 {
        None
    } else {
        let rest = max_occupied(slots.drop_last());
        let (idx, occ) = slots.last();
        if occ {
            match rest {
                Some(m) => Some(if m >= idx { m } else { idx as int }),
                None => Some(idx as int),
            }
        } else {
            rest
        }
    }
}

/// Some slot of the register has index `idx`.
pub open spec fn has_index(slots: Seq<(usize, bool)>, idx: int) -> bool {
    exists|k: int| 0 <= k < slots.len() && slots[k].0 == idx
}

/// The queue slot to add: one past the last occupied position, unless that
/// position already has a slot or nobody queues.
pub open spec fn spec_next_queue_slot(slots: Seq<(usize, bool)>) -> Option<usize> {
    match max_occupied(slots) {
        Some(m) => if has_index(slots, m + 1) { None } else { Some((m + 1) as usize) },
        None => None,
    }
}

proof fn lemma_max_occupied_step(slots: Seq<(usize, bool)>, i: int)
    requires
        0 <= i < slots.len(),
    ensures
        slots.subrange(0, i + 1).drop_last() == slots.subrange(0, i),
        slots.subrange(0, i + 1).last() == slots[i],
{
    assert(slots.subrange(0, i + 1).drop_last() =~= slots.subrange(0, i));
}

proof fn lemma_max_occupied_bounds(slots: Seq<(usize, bool)>)
    ensures
        match max_occupied(slots) {
            Some(m) => exists|k: int| 0 <= k < slots.len() && slots[k].1 && slots[k].0 == m,
            None => forall|k: int| 0 <= k < slots.len() ==> !(#[trigger] slots[k]).1,
        },
    decreases slots.len(),
{
    if slots.len() > 0 {
        let rest = slots.drop_last();
        lemma_max_occupied_bounds(rest);
        match max_occupied(rest) {
            Some(m) => {
                let k = choose|k: int| 0 <= k < rest.len() && rest[k].1 && rest[k].0 == m;
                assert(slots[k] == rest[k]);
            },
            None => {
                assert forall|k: int| 0 <= k < slots.len() - 1 implies !(#[trigger] slots[k]).1 by {
                    assert(slots[k] == rest[k]);
                }
            },
        }
    }
}

fn max_occupied_index(slots: &[(usize, bool)]) -> (r: Option<usize>)
    ensures
        match r {
            Some(m) => max_occupied(slots@) == Some(m as int),
            None => max_occupied(slots@) is None,
        },
{
    let mut best: Option<usize> = None;
    let mut i: usize = 0;
    while i < slots.len()
        invariant
            0 <= i <= slots@.len(),
            match best {
                Some(m) => max_occupied(slots@.subrange(0, i as int)) == Some(m as int),
                None => max_occupied(slots@.subrange(0, i as int)) is None,
            },
        decreases slots@.len() - i,
    {
        proof {
            lemma_max_occupied_step(slots@, i as int);
        }
        let (idx, occ) = slots[i];
        if occ {
            best = match best {
                Some(m) => Some(if m >= idx { m } else { idx }),
                None => Some(idx),
            };
        }
        i = i + 1;
    }
    assert(slots@.subrange(0, slots@.len() as int) =~= slots@);
    best
}

/// For one register's queue slots `(index, occupied)`: the index of the slot
/// to add so that the position behind the last occupied one exists.
pub fn ensure_next_queue_slot(slots: &[(usize, bool)]) -> (r: Option<usize>)
    requires
        forall|k: int| 0 <= k < slots@.len() && (#[trigger] slots@[k]).1 ==> slots@[k].0 < usize::MAX,
    ensures
        r == spec_next_queue_slot(slots@),
{
    proof {
        lemma_max_occupied_bounds(slots@);
    }
    match max_occupied_index(slots) {
        Some(max_idx) => {
            let next_idx = max_idx + 1;
            let mut found = false;
            let mut i: usize = 0;
            while i < slots.len()
                invariant
                    0 <= i <= slots@.len(),
                    found == exists|k: int| 0 <= k < i && slots@[k].0 == next_idx,
                decreases slots@.len() - i,
            {
                if slots[i].0 == next_idx {
                    found = true;
                }
                i = i + 1;
            }
            if found {
                None
            } else {
                Some(next_idx)
            }
        },
        None => None,
    }
}

proof fn lemma_occupied_below_max(slots: Seq<(usize, bool)>, k: int)
    requires
        0 <= k < slots.len(),
        slots[k].1,
    ensures
        max_occupied(slots) matches Some(m) && slots[k].0 <= m,
    decreases slots.len(),
{
    let rest = slots.drop_last();
    if k < slots.len() - 1 {
        assert(rest[k] == slots[k]);
        lemma_occupied_below_max(rest, k);
    }
}

/// Shrinking never removes an occupied queue position, and it keeps the
/// position right behind the last occupied one.
pub proof fn law_shrink_keeps_occupied(slots: Seq<(usize, bool)>)
    ensures
        forall|k: int| 0 <= k < slots.len() && (#[trigger] slots[k]).1 ==> slots[k].0 < keep_count(slots),
        max_occupied(slots) matches Some(m) ==> m + 1 < keep_count(slots),
{
    assert forall|k: int| 0 <= k < slots.len() && (#[trigger] slots[k]).1 implies slots[k].0 < keep_count(slots) by {
        lemma_occupied_below_max(slots, k);
    }
}

/// Number of queue positions to keep: everything through one past the last
/// occupied position, or just the first when nobody queues.
pub open spec fn keep_count(slots: Seq<(usize, bool)>) -> int {
    match max_occupied(slots) {
        Some(m) => m + 2,
        None => 1,
    }
}

/// For one register's queue slots `(index, occupied)`: which slots to remove,
/// position by position — those at or past `keep_count`.
pub fn shrink_queue_slots(slots: &[(usize, bool)]) -> (r: Vec<bool>)
    requires
        forall|k: int| 0 <= k < slots@.len() && (#[trigger] slots@[k]).1 ==> slots@[k].0 < usize::MAX - 1,
    ensures
        r@.len() == slots@.len(),
        forall|k: int| 0 <= k < slots@.len() ==> #[trigger] r@[k] == (slots@[k].0 >= keep_count(slots@)),
{
    proof {
        lemma_max_occupied_bounds(slots@);
    }
    let target: usize = match max_occupied_index(slots) {
        Some(m) => m + 2,
        None => 1,
    };
    let mut out: Vec<bool> = Vec::new();
    let mut i: usize = 0;
    while i < slots.len()
        invariant
            0 <= i <= slots@.len(),
            target == keep_count(slots@),
            out@.len() == i,
            forall|k: int| 0 <= k < i ==> #[trigger] out@[k] == (slots@[k].0 >= keep_count(slots@)),
        decreases slots@.len() - i,
    {
        out.push(slots[i].0 >= target);
        i = i + 1;
    }
    out
}

} // verus!
