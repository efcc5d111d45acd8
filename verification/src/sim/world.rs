//! Flat-array spatial index of the grid: one array per layer plus a
//! reservation layer for moving agents.

use vstd::prelude::*;
use crate::base::components::EntityId;
use crate::base::world::{cell_index, in_grid, lemma_cell_index_bounds, lemma_cell_index_injective};
use crate::sim::small_lists::{EntityList, entities_as_slice, entities_new, entities_of, entities_push, entities_remove_all, list_room, without};

verus! {

/// Which spatial layer an entity belongs to.
#[derive(Clone, Copy, Debug, PartialEq, Eq, Structural)]
pub enum GridLayer {
    /// One entity per cell; blocks pathfinding.
    Floor,
    /// One entity per cell; does not block pathfinding.
    Ceiling,
    /// Any number of entities per cell; does not block pathfinding.
    Surface,
}

/// How long a reservation lives.
#[derive(Clone, Copy, Debug, PartialEq, Eq, Structural)]
pub enum ReservationDuration {
    /// Decays by one each tick and is removed at zero.
    Timed(u8),
    /// Persists until released.
    Permanent,
}

#[derive(Clone, Copy, Debug, PartialEq, Eq, Structural)]
pub enum CellIntent {
    /// The agent intends to move here but has not entered yet; can be bumped.
    Intend,
    /// The agent is passing through to the next cell.
    Transient,
    /// The agent stands in this cell; highest priority.
    Occupy,
}

/// A cell reservation for dynamic obstacle avoidance.
#[derive(Clone, Copy, Debug, PartialEq, Eq, Structural)]
pub struct ReservationEntry {
    pub entity: EntityId,
    pub duration: ReservationDuration,
    pub intent: CellIntent,
}

/// Result of attempting to reserve a cell.
#[derive(Clone, Copy, Debug, PartialEq, Eq, Structural)]
pub enum ReserveResult {
    Claimed,
    Blocked,
    /// Claimed by taking the cell from the named entity.
    Preempted(EntityId),
}

/// Layered spatial index of a `width` x `height` grid, row-major.
pub struct GridLayers {
    pub width: i32,
    pub height: i32,
    pub floor: Vec<Option<EntityId>>,
    pub ceiling: Vec<Option<EntityId>>,
    pub surface: Vec<EntityList>,
    pub reserved: Vec<Option<ReservationEntry>>,
}

/// Priority of a reservation: the intent's rank (3 = occupy, 2 = transient,
/// 1 = intend) in the high nibble, the entity id's low 4 bits as tie-break.
pub open spec fn spec_priority(entity: EntityId, intent: CellIntent) -> int {
    let base: int = match intent {
        CellIntent::Occupy => 3,
        CellIntent::Transient => 2,
        CellIntent::Intend => 1,
    };
    base * 16 + (entity % 16) as int
}

pub fn priority_value(entity: EntityId, intent: CellIntent) -> (r: u8)
    ensures
        r == spec_priority(entity, intent),
{
    let base: u8 = match intent {
        CellIntent::Occupy => 3,
        CellIntent::Transient => 2,
        CellIntent::Intend => 1,
    };
    let low = entity as u8 & 0x0F;
    proof {
        assert(low == entity % 16) by (bit_vector)
            requires
                low == (entity as u8) & 0x0F,
        ;
        assert((base << 4u8) | low == base * 16 + low) by (bit_vector)
            requires
                1 <= base <= 3,
                low < 16,
        ;
    }
    (base << 4) | low
}

impl GridLayers {
    pub open spec fn in_bounds(&self, x: int, y: int) -> bool {
        in_grid(self.width as int, self.height as int, x, y)
    }

    /// All layers have one slot per cell.
    pub open spec fn wf(&self) -> bool {
        &&& 0 <= self.width * self.height <= i32::MAX
        &&& self.floor@.len() == self.width * self.height
        &&& self.ceiling@.len() == self.width * self.height
        &&& self.surface@.len() == self.width * self.height
        &&& self.reserved@.len() == self.width * self.height
    }

    /// Floor entity of a cell; `None` outside the grid.
    pub open spec fn floor_at(&self, x: int, y: int) -> Option<EntityId> {
        if self.in_bounds(x, y) {
            self.floor@[cell_index(self.width as int, x, y)]
        } else {
            None
        }
    }

    /// Ceiling entity of a cell; `None` outside the grid.
    pub open spec fn ceiling_at(&self, x: int, y: int) -> Option<EntityId> {
        if self.in_bounds(x, y) {
            self.ceiling@[cell_index(self.width as int, x, y)]
        } else {
            None
        }
    }

    /// Surface entities of a cell in insertion order; empty outside the grid.
    pub open spec fn surface_at(&self, x: int, y: int) -> Seq<EntityId> {
        if self.in_bounds(x, y) {
            entities_of(self.surface@[cell_index(self.width as int, x, y)])
        } else {
            Seq::empty()
        }
    }

    /// Reservation of a cell; `None` outside the grid.
    pub open spec fn reserved_at(&self, x: int, y: int) -> Option<ReservationEntry> {
        if self.in_bounds(x, y) {
            self.reserved@[cell_index(self.width as int, x, y)]
        } else {
            None
        }
    }

    /// Inside the grid, with neither a floor entity nor a reservation.
    pub open spec fn spec_walkable(&self, x: int, y: int) -> bool {
        self.in_bounds(x, y) && self.floor_at(x, y) is None && self.reserved_at(x, y) is None
    }

    /// Inside the grid, without a floor entity and not reserved by another entity.
    pub open spec fn spec_walkable_for(&self, x: int, y: int, e: EntityId) -> bool {
        self.in_bounds(x, y) && self.floor_at(x, y) is None && match self.reserved_at(x, y) {
            None => true,
            Some(r) => r.entity == e,
        }
    }

    /// The layers other than the reservation layer are those of `other`.
    pub open spec fn same_static_layers(&self, other: &GridLayers) -> bool {
        &&& self.width == other.width
        &&& self.height == other.height
        &&& forall|x: int, y: int| #[trigger] self.floor_at(x, y) == other.floor_at(x, y)
        &&& forall|x: int, y: int| #[trigger] self.ceiling_at(x, y) == other.ceiling_at(x, y)
        &&& forall|x: int, y: int| #[trigger] self.surface_at(x, y) == other.surface_at(x, y)
    }

    /// Only the reservation layer may differ from `other`.
    pub open spec fn same_but_reservations(&self, other: &GridLayers) -> bool {
        self.same_static_layers(other)
    }

    /// Everything but the floor layer is that of `other`.
    pub open spec fn same_but_floor(&self, other: &GridLayers) -> bool {
        &&& self.width == other.width
        &&& self.height == other.height
        &&& forall|x: int, y: int| #[trigger] self.ceiling_at(x, y) == other.ceiling_at(x, y)
        &&& forall|x: int, y: int| #[trigger] self.surface_at(x, y) == other.surface_at(x, y)
        &&& forall|x: int, y: int| #[trigger] self.reserved_at(x, y) == other.reserved_at(x, y)
    }

    /// Everything but the ceiling layer is that of `other`.
    pub open spec fn same_but_ceiling(&self, other: &GridLayers) -> bool {
        &&& self.width == other.width
        &&& self.height == other.height
        &&& forall|x: int, y: int| #[trigger] self.floor_at(x, y) == other.floor_at(x, y)
        &&& forall|x: int, y: int| #[trigger] self.surface_at(x, y) == other.surface_at(x, y)
        &&& forall|x: int, y: int| #[trigger] self.reserved_at(x, y) == other.reserved_at(x, y)
    }

    /// Everything but the surface layer is that of `other`.
    pub open spec fn same_but_surface(&self, other: &GridLayers) -> bool {
        &&& self.width == other.width
        &&& self.height == other.height
        &&& forall|x: int, y: int| #[trigger] self.floor_at(x, y) == other.floor_at(x, y)
        &&& forall|x: int, y: int| #[trigger] self.ceiling_at(x, y) == other.ceiling_at(x, y)
        &&& forall|x: int, y: int| #[trigger] self.reserved_at(x, y) == other.reserved_at(x, y)
    }

    /// An empty index of the given size.
    pub fn new(width: i32, height: i32) -> (r: Self)
        requires
            0 <= width * height <= i32::MAX,
        ensures
            r.wf(),
            r.width == width,
            r.height == height,
            forall|x: int, y: int| #[trigger] r.floor_at(x, y) is None,
            forall|x: int, y: int| #[trigger] r.ceiling_at(x, y) is None,
            forall|x: int, y: int| #[trigger] r.surface_at(x, y) == Seq::<EntityId>::empty(),
            forall|x: int, y: int| #[trigger] r.reserved_at(x, y) is None,
    {
        let size = (width * height) as usize;
        let mut floor: Vec<Option<EntityId>> = Vec::with_capacity(size);
        let mut ceiling: Vec<Option<EntityId>> = Vec::with_capacity(size);
        let mut surface: Vec<EntityList> = Vec::with_capacity(size);
        let mut reserved: Vec<Option<ReservationEntry>> = Vec::with_capacity(size);
        let mut i: usize = 0;
        while i < size
            invariant
                i <= size,
                floor@.len() == i,
                ceiling@.len() == i,
                surface@.len() == i,
                reserved@.len() == i,
                forall|j: int| 0 <= j < i ==> #[trigger] floor@[j] is None,
                forall|j: int| 0 <= j < i ==> #[trigger] ceiling@[j] is None,
                forall|j: int| 0 <= j < i ==> #[trigger] entities_of(surface@[j]) == Seq::<EntityId>::empty(),
                forall|j: int| 0 <= j < i ==> #[trigger] reserved@[j] is None,
            decreases size - i,
        {
            floor.push(None);
            ceiling.push(None);
            surface.push(entities_new());
            reserved.push(None);
            i = i + 1;
        }
        let r = GridLayers { width, height, floor, ceiling, surface, reserved };
        assert forall|x: int, y: int| r.in_bounds(x, y) implies 0 <= cell_index(width as int, x, y) < size by {
            lemma_cell_index_bounds(width as int, height as int, x, y);
        }
        r
    }

    fn index(&self, x: i32, y: i32) -> (r: Option<usize>)
        requires
            self.wf(),
        ensures
            self.in_bounds(x as int, y as int) ==> r == Some(cell_index(self.width as int, x as int, y as int) as usize),
            self.in_bounds(x as int, y as int) ==> 0 <= cell_index(self.width as int, x as int, y as int) < self.floor@.len(),
            !self.in_bounds(x as int, y as int) ==> r is None,
    {
        if x < 0 || x >= self.width || y < 0 || y >= self.height {
            return None;
        }
        proof {
            lemma_cell_index_bounds(self.width as int, self.height as int, x as int, y as int);
            assert(0 <= y * self.width) by (nonlinear_arith)
                requires
                    0 <= y,
                    0 <= self.width,
            ;
        }
        Some((y * self.width + x) as usize)
    }

    /// Distinct in-grid cells have distinct slots.
    pub proof fn lemma_slot_unique(&self, x: int, y: int, a: int, b: int)
        requires
            self.in_bounds(x, y),
            self.in_bounds(a, b),
            !(x == a && y == b),
        ensures
            cell_index(self.width as int, x, y) != cell_index(self.width as int, a, b),
            0 <= cell_index(self.width as int, a, b) < self.width * self.height,
    {
        lemma_cell_index_bounds(self.width as int, self.height as int, a, b);
        if cell_index(self.width as int, x, y) == cell_index(self.width as int, a, b) {
            lemma_cell_index_injective(self.width as int, self.height as int, x, y, a, b);
        }
    }

    // ── Floor ──────────────────────────────────────────────

    /// Every listed cell lies in the grid and has no floor entity.
    pub open spec fn floor_free(&self, cells: Seq<(i32, i32)>) -> bool {
        forall|k: int| 0 <= k < cells.len() ==> #[trigger] self.in_bounds(cells[k].0 as int, cells[k].1 as int)
            && self.floor_at(cells[k].0 as int, cells[k].1 as int) is None
    }

    /// Place `entity` on the floor of every listed cell, all or nothing: it is
    /// placed when every cell lies in the grid and is free.
    pub fn try_place_floor(&mut self, cells: &[(i32, i32)], entity: EntityId) -> (r: bool)
        requires
            old(self).wf(),
        ensures
            final(self).wf(),
            r == old(self).floor_free(cells@),
            !r ==> *final(self) == *old(self),
            final(self).same_but_floor(old(self)),
            forall|x: int, y: int|
                #![trigger final(self).floor_at(x, y)]
                final(self).floor_at(x, y) == if r && cells@.contains((x as i32, y as i32)) && old(self).in_bounds(x, y) {
                    Some(entity)
                } else {
                    old(self).floor_at(x, y)
                },
    {
        let mut k: usize = 0;
        while k < cells.len()
            invariant
                self.wf(),
                0 <= k <= cells@.len(),
                forall|j: int| 0 <= j < k ==> #[trigger] self.in_bounds(cells@[j].0 as int, cells@[j].1 as int)
                    && self.floor_at(cells@[j].0 as int, cells@[j].1 as int) is None,
            decreases cells@.len() - k,
        {
            let (x, y) = cells[k];
            match self.index(x, y) {
                None => {
                    return false;
                },
                Some(i) => {
                    if self.floor[i].is_some() {
                        return false;
                    }
                },
            }
            k = k + 1;
        }
        let ghost pre = *self;
        let mut k: usize = 0;
        while k < cells.len()
            invariant
                self.wf(),
                pre.wf(),
                pre.floor_free(cells@),
                0 <= k <= cells@.len(),
                self.same_but_floor(&pre),
                forall|x: int, y: int|
                    #![trigger self.floor_at(x, y)]
                    self.floor_at(x, y) == if cells@.subrange(0, k as int).contains((x as i32, y as i32)) && pre.in_bounds(x, y) {
                        Some(entity)
                    } else {
                        pre.floor_at(x, y)
                    },
            decreases cells@.len() - k,
        {
            let (x, y) = cells[k];
            assert(pre.in_bounds(x as int, y as int));
            let i = self.index(x, y).unwrap();
            let ghost mid = *self;
            self.floor.set(i, Some(entity));
            proof {
                assert forall|a: int, b: int| #![trigger self.floor_at(a, b)]
                    self.floor_at(a, b) == if cells@.subrange(0, k + 1).contains((a as i32, b as i32)) && pre.in_bounds(a, b) {
                        Some(entity)
                    } else {
                        pre.floor_at(a, b)
                    } by {
                    let s0 = cells@.subrange(0, k as int);
                    let s1 = cells@.subrange(0, k + 1);
                    assert(s1 == s0.push((x, y)));
                    let _ = mid.floor_at(a, b);
                    if pre.in_bounds(a, b) {
                        if a == x && b == y {
                            assert(s1[k as int] == (a as i32, b as i32));
                        } else {
                            mid.lemma_slot_unique(x as int, y as int, a, b);
                            if s0.contains((a as i32, b as i32)) {
                                assert(s1.contains((a as i32, b as i32)));
                            }
                            if s1.contains((a as i32, b as i32)) {
                                let j = choose|j: int| 0 <= j < s1.len() && s1[j] == (a as i32, b as i32);
                                assert(j != k);
                                assert(s0[j] == s1[j]);
                            }
                        }
                    }
                }
                assert forall|a: int, b: int| #[trigger] self.ceiling_at(a, b) == pre.ceiling_at(a, b) by {
                    assert(self.ceiling_at(a, b) == mid.ceiling_at(a, b));
                }
                assert forall|a: int, b: int| #[trigger] self.surface_at(a, b) == pre.surface_at(a, b) by {
                    assert(self.surface_at(a, b) == mid.surface_at(a, b));
                }
                assert forall|a: int, b: int| #[trigger] self.reserved_at(a, b) == pre.reserved_at(a, b) by {
                    assert(self.reserved_at(a, b) == mid.reserved_at(a, b));
                }
            }
            k = k + 1;
        }
        assert(cells@.subrange(0, cells@.len() as int) == cells@);
        true
    }

    /// Clear the floor of every listed cell that holds `entity`.
    pub fn remove_floor(&mut self, cells: &[(i32, i32)], entity: EntityId)
        requires
            old(self).wf(),
        ensures
            final(self).wf(),
            final(self).same_but_floor(old(self)),
            forall|x: int, y: int|
                #![trigger final(self).floor_at(x, y)]
                final(self).floor_at(x, y) == if cells@.contains((x as i32, y as i32)) && old(self).in_bounds(x, y)
                    && old(self).floor_at(x, y) == Some(entity) {
                    None
                } else {
                    old(self).floor_at(x, y)
                },
    {
        let ghost pre = *self;
        let mut k: usize = 0;
        while k < cells.len()
            invariant
                self.wf(),
                pre.wf(),
                0 <= k <= cells@.len(),
                self.same_but_floor(&pre),
                forall|x: int, y: int|
                    #![trigger self.floor_at(x, y)]
                    self.floor_at(x, y) == if cells@.subrange(0, k as int).contains((x as i32, y as i32)) && pre.in_bounds(x, y)
                        && pre.floor_at(x, y) == Some(entity) {
                        None
                    } else {
                        pre.floor_at(x, y)
                    },
            decreases cells@.len() - k,
        {
            let (x, y) = cells[k];
            let ghost mid = *self;
            if let Some(i) = self.index(x, y) {
                if self.floor[i] == Some(entity) {
                    self.floor.set(i, None);
                }
            }
            proof {
                assert forall|a: int, b: int| #![trigger self.floor_at(a, b)]
                    self.floor_at(a, b) == if cells@.subrange(0, k + 1).contains((a as i32, b as i32)) && pre.in_bounds(a, b)
                        && pre.floor_at(a, b) == Some(entity) {
                        None
                    } else {
                        pre.floor_at(a, b)
                    } by {
                    let s0 = cells@.subrange(0, k as int);
                    let s1 = cells@.subrange(0, k + 1);
                    assert(s1 == s0.push((x, y)));
                    let _ = mid.floor_at(a, b);
                    if pre.in_bounds(a, b) {
                        if a == x && b == y {
                            assert(s1[k as int] == (a as i32, b as i32));
                        } else {
                            if mid.in_bounds(x as int, y as int) {
                                mid.lemma_slot_unique(x as int, y as int, a, b);
                            }
                            if s0.contains((a as i32, b as i32)) {
                                assert(s1.contains((a as i32, b as i32)));
                            }
                            if s1.contains((a as i32, b as i32)) {
                                let j = choose|j: int| 0 <= j < s1.len() && s1[j] == (a as i32, b as i32);
                                assert(j != k);
                                assert(s0[j] == s1[j]);
                            }
                        }
                    }
                }
                assert forall|a: int, b: int| #[trigger] self.ceiling_at(a, b) == pre.ceiling_at(a, b) by {
                    assert(self.ceiling_at(a, b) == mid.ceiling_at(a, b));
                }
                assert forall|a: int, b: int| #[trigger] self.surface_at(a, b) == pre.surface_at(a, b) by {
                    assert(self.surface_at(a, b) == mid.surface_at(a, b));
                }
                assert forall|a: int, b: int| #[trigger] self.reserved_at(a, b) == pre.reserved_at(a, b) by {
                    assert(self.reserved_at(a, b) == mid.reserved_at(a, b));
                }
            }
            k = k + 1;
        }
        assert(cells@.subrange(0, cells@.len() as int) == cells@);
    }

    /// Floor entity of a cell; `None` outside the grid.
    pub fn floor_entity_at(&self, x: i32, y: i32) -> (r: Option<EntityId>)
        requires
            self.wf(),
        ensures
            r == self.floor_at(x as int, y as int),
    {
        match self.index(x, y) {
            Some(i) => self.floor[i],
            None => None,
        }
    }

    /// Floor entities of the four neighbours (+x, -x, +y, -y), in that order,
    /// skipping cells without one.
    pub fn floor_neighbors(&self, x: i32, y: i32) -> (r: Vec<EntityId>)
        requires
            self.wf(),
            i32::MIN < x < i32::MAX,
            i32::MIN < y < i32::MAX,
        ensures
            r@ == neighbor_floors(*self, x as int, y as int),
    {
        let mut r: Vec<EntityId> = Vec::new();
        let a = self.floor_entity_at(x + 1, y);
        if let Some(e) = a {
            r.push(e);
        }
        assert(r@ =~= option_seq(a));
        let b = self.floor_entity_at(x - 1, y);
        if let Some(e) = b {
            r.push(e);
        }
        assert(r@ =~= option_seq(a) + option_seq(b));
        let c = self.floor_entity_at(x, y + 1);
        if let Some(e) = c {
            r.push(e);
        }
        assert(r@ =~= option_seq(a) + option_seq(b) + option_seq(c));
        let d = self.floor_entity_at(x, y - 1);
        if let Some(e) = d {
            r.push(e);
        }
        assert(r@ =~= option_seq(a) + option_seq(b) + option_seq(c) + option_seq(d));
        r
    }

    // ── Ceiling ────────────────────────────────────────────

    /// Place `entity` on the ceiling of a free in-grid cell.
    pub fn try_place_ceiling(&mut self, cell: (i32, i32), entity: EntityId) -> (r: bool)
        requires
            old(self).wf(),
        ensures
            final(self).wf(),
            r == (old(self).in_bounds(cell.0 as int, cell.1 as int) && old(self).ceiling_at(cell.0 as int, cell.1 as int) is None),
            !r ==> *final(self) == *old(self),
            final(self).same_but_ceiling(old(self)),
            forall|x: int, y: int|
                #![trigger final(self).ceiling_at(x, y)]
                final(self).ceiling_at(x, y) == if r && x == cell.0 && y == cell.1 {
                    Some(entity)
                } else {
                    old(self).ceiling_at(x, y)
                },
    {
        let i = match self.index(cell.0, cell.1) {
            Some(i) => i,
            None => {
                return false;
            },
        };
        if self.ceiling[i].is_some() {
            return false;
        }
        let ghost pre = *self;
        self.ceiling.set(i, Some(entity));
        proof {
            assert forall|a: int, b: int| #![trigger self.ceiling_at(a, b)] !(a == cell.0 && b == cell.1) implies
                self.ceiling_at(a, b) == pre.ceiling_at(a, b) by {
                if pre.in_bounds(a, b) {
                    pre.lemma_slot_unique(cell.0 as int, cell.1 as int, a, b);
                }
            }
            assert forall|a: int, b: int| #[trigger] self.floor_at(a, b) == pre.floor_at(a, b) by {}
            assert forall|a: int, b: int| #[trigger] self.surface_at(a, b) == pre.surface_at(a, b) by {}
            assert forall|a: int, b: int| #[trigger] self.reserved_at(a, b) == pre.reserved_at(a, b) by {}
        }
        true
    }

    /// Clear the ceiling of a cell that holds `entity`.
    pub fn remove_ceiling(&mut self, cell: (i32, i32), entity: EntityId)
        requires
            old(self).wf(),
        ensures
            final(self).wf(),
            final(self).same_but_ceiling(old(self)),
            forall|x: int, y: int|
                #![trigger final(self).ceiling_at(x, y)]
                final(self).ceiling_at(x, y) == if x == cell.0 && y == cell.1 && old(self).ceiling_at(x, y) == Some(entity) {
                    None
                } else {
                    old(self).ceiling_at(x, y)
                },
    {
        if let Some(i) = self.index(cell.0, cell.1) {
            if self.ceiling[i] == Some(entity) {
                let ghost pre = *self;
                self.ceiling.set(i, None);
                proof {
                    assert forall|a: int, b: int| #![trigger self.ceiling_at(a, b)] !(a == cell.0 && b == cell.1) implies
                        self.ceiling_at(a, b) == pre.ceiling_at(a, b) by {
                        if pre.in_bounds(a, b) {
                            pre.lemma_slot_unique(cell.0 as int, cell.1 as int, a, b);
                        }
                    }
                    assert forall|a: int, b: int| #[trigger] self.floor_at(a, b) == pre.floor_at(a, b) by {}
                    assert forall|a: int, b: int| #[trigger] self.surface_at(a, b) == pre.surface_at(a, b) by {}
                    assert forall|a: int, b: int| #[trigger] self.reserved_at(a, b) == pre.reserved_at(a, b) by {}
                }
            }
        }
    }

    // ── Surface ────────────────────────────────────────────

    /// Add `entity` to the surface of an in-grid cell.
    pub fn add_surface(&mut self, cell: (i32, i32), entity: EntityId) -> (r: bool)
        requires
            old(self).wf(),
            old(self).surface_at(cell.0 as int, cell.1 as int).len() < list_room(),
        ensures
            final(self).wf(),
            r == old(self).in_bounds(cell.0 as int, cell.1 as int),
            !r ==> *final(self) == *old(self),
            final(self).same_but_surface(old(self)),
            forall|x: int, y: int|
                #![trigger final(self).surface_at(x, y)]
                final(self).surface_at(x, y) == if r && x == cell.0 && y == cell.1 {
                    old(self).surface_at(x, y).push(entity)
                } else {
                    old(self).surface_at(x, y)
                },
    {
        let i = match self.index(cell.0, cell.1) {
            Some(i) => i,
            None => {
                return false;
            },
        };
        let ghost pre = *self;
        entities_push(&mut self.surface[i], entity);
        proof {
            assert forall|a: int, b: int| #![trigger self.surface_at(a, b)] !(a == cell.0 && b == cell.1) implies
                self.surface_at(a, b) == pre.surface_at(a, b) by {
                if pre.in_bounds(a, b) {
                    pre.lemma_slot_unique(cell.0 as int, cell.1 as int, a, b);
                }
            }
            assert forall|a: int, b: int| #[trigger] self.floor_at(a, b) == pre.floor_at(a, b) by {}
            assert forall|a: int, b: int| #[trigger] self.ceiling_at(a, b) == pre.ceiling_at(a, b) by {}
            assert forall|a: int, b: int| #[trigger] self.reserved_at(a, b) == pre.reserved_at(a, b) by {}
        }
        true
    }

    /// Remove every occurrence of `entity` from the surface of a cell.
    pub fn remove_surface(&mut self, cell: (i32, i32), entity: EntityId)
        requires
            old(self).wf(),
        ensures
            final(self).wf(),
            final(self).same_but_surface(old(self)),
            forall|x: int, y: int|
                #![trigger final(self).surface_at(x, y)]
                final(self).surface_at(x, y) == if x == cell.0 && y == cell.1 {
                    without(old(self).surface_at(x, y), entity)
                } else {
                    old(self).surface_at(x, y)
                },
    {
        let ghost pre = *self;
        if let Some(i) = self.index(cell.0, cell.1) {
            entities_remove_all(&mut self.surface[i], entity);
            proof {
                assert forall|a: int, b: int| #![trigger self.surface_at(a, b)] !(a == cell.0 && b == cell.1) implies
                    self.surface_at(a, b) == pre.surface_at(a, b) by {
                    if pre.in_bounds(a, b) {
                        pre.lemma_slot_unique(cell.0 as int, cell.1 as int, a, b);
                    }
                }
                assert forall|a: int, b: int| #[trigger] self.floor_at(a, b) == pre.floor_at(a, b) by {}
                assert forall|a: int, b: int| #[trigger] self.ceiling_at(a, b) == pre.ceiling_at(a, b) by {}
                assert forall|a: int, b: int| #[trigger] self.reserved_at(a, b) == pre.reserved_at(a, b) by {}
            }
        } else {
            proof {
                assert(Seq::<EntityId>::empty().filter(|e: EntityId| e != entity) =~= Seq::<EntityId>::empty());
            }
        }
    }

    // ── Reservation ────────────────────────────────────────

    /// Write one reservation slot; every other cell and layer is unchanged.
    fn set_reservation(&mut self, x: i32, y: i32, i: usize, entry: Option<ReservationEntry>)
        requires
            old(self).wf(),
            old(self).in_bounds(x as int, y as int),
            i == cell_index(old(self).width as int, x as int, y as int),
        ensures
            final(self).wf(),
            final(self).same_but_reservations(old(self)),
            forall|a: int, b: int|
                #![trigger final(self).reserved_at(a, b)]
                final(self).reserved_at(a, b) == if a == x && b == y {
                    entry
                } else {
                    old(self).reserved_at(a, b)
                },
    {
        proof {
            lemma_cell_index_bounds(self.width as int, self.height as int, x as int, y as int);
        }
        let ghost pre = *self;
        self.reserved.set(i, entry);
        proof {
            assert forall|a: int, b: int| #![trigger self.reserved_at(a, b)] !(a == x && b == y) implies
                self.reserved_at(a, b) == pre.reserved_at(a, b) by {
                if pre.in_bounds(a, b) {
                    pre.lemma_slot_unique(x as int, y as int, a, b);
                }
            }
            assert forall|a: int, b: int| #[trigger] self.floor_at(a, b) == pre.floor_at(a, b) by {}
            assert forall|a: int, b: int| #[trigger] self.ceiling_at(a, b) == pre.ceiling_at(a, b) by {}
            assert forall|a: int, b: int| #[trigger] self.surface_at(a, b) == pre.surface_at(a, b) by {}
        }
    }

    /// Permanently reserve a free in-grid cell for `entity`, as an occupant.
    pub fn reserve_cell(&mut self, x: i32, y: i32, entity: EntityId) -> (r: bool)
        requires
            old(self).wf(),
        ensures
            final(self).wf(),
            r == (old(self).in_bounds(x as int, y as int) && old(self).reserved_at(x as int, y as int) is None),
            !r ==> *final(self) == *old(self),
            final(self).same_but_reservations(old(self)),
            forall|a: int, b: int|
                #![trigger final(self).reserved_at(a, b)]
                final(self).reserved_at(a, b) == if r && a == x && b == y {
                    Some(ReservationEntry { entity, duration: ReservationDuration::Permanent, intent: CellIntent::Occupy })
                } else {
                    old(self).reserved_at(a, b)
                },
    {
        let i = match self.index(x, y) {
            Some(i) => i,
            None => {
                return false;
            },
        };
        if self.reserved[i].is_some() {
            return false;
        }
        self.set_reservation(
            x,
            y,
            i,
            Some(ReservationEntry { entity, duration: ReservationDuration::Permanent, intent: CellIntent::Occupy }),
        );
        true
    }

    /// Drop the reservation of a cell if `entity` holds it.
    pub fn release_cell(&mut self, x: i32, y: i32, entity: EntityId)
        requires
            old(self).wf(),
        ensures
            final(self).wf(),
            final(self).same_but_reservations(old(self)),
            forall|a: int, b: int|
                #![trigger final(self).reserved_at(a, b)]
                final(self).reserved_at(a, b) == if a == x && b == y && held_by(old(self).reserved_at(a, b), entity) {
                    None
                } else {
                    old(self).reserved_at(a, b)
                },
    {
        if let Some(i) = self.index(x, y) {
            let held = match &self.reserved[i] {
                Some(r) => r.entity == entity,
                None => false,
            };
            if held {
                self.set_reservation(x, y, i, None);
            }
        }
    }

    /// Drop every reservation held by `entity`.
    pub fn release_all(&mut self, entity: EntityId)
        requires
            old(self).wf(),
        ensures
            final(self).wf(),
            final(self).same_but_reservations(old(self)),
            forall|a: int, b: int|
                #![trigger final(self).reserved_at(a, b)]
                final(self).reserved_at(a, b) == if held_by(old(self).reserved_at(a, b), entity) {
                    None
                } else {
                    old(self).reserved_at(a, b)
                },
    {
        let ghost pre = *self;
        let mut i: usize = 0;
        while i < self.reserved.len()
            invariant
                pre.wf(),
                self.wf(),
                self.same_but_reservations(&pre),
                0 <= i <= self.reserved@.len(),
                self.reserved@.len() == pre.reserved@.len(),
                forall|j: int|
                    0 <= j < self.reserved@.len() ==> #[trigger] self.reserved@[j] == if j < i && held_by(pre.reserved@[j], entity) {
                        None
                    } else {
                        pre.reserved@[j]
                    },
            decreases self.reserved@.len() - i,
        {
            let held = match &self.reserved[i] {
                Some(r) => r.entity == entity,
                None => false,
            };
            if held {
                let ghost mid = *self;
                self.reserved.set(i, None);
                proof {
                    assert forall|a: int, b: int| #[trigger] self.floor_at(a, b) == pre.floor_at(a, b) by {
                        assert(self.floor_at(a, b) == mid.floor_at(a, b));
                    }
                    assert forall|a: int, b: int| #[trigger] self.ceiling_at(a, b) == pre.ceiling_at(a, b) by {
                        assert(self.ceiling_at(a, b) == mid.ceiling_at(a, b));
                    }
                    assert forall|a: int, b: int| #[trigger] self.surface_at(a, b) == pre.surface_at(a, b) by {
                        assert(self.surface_at(a, b) == mid.surface_at(a, b));
                    }
                }
            }
            i = i + 1;
        }
        proof {
            assert forall|a: int, b: int|
                #![trigger self.reserved_at(a, b)]
                self.reserved_at(a, b) == if held_by(pre.reserved_at(a, b), entity) {
                    None
                } else {
                    pre.reserved_at(a, b)
                } by {
                if pre.in_bounds(a, b) {
                    lemma_cell_index_bounds(pre.width as int, pre.height as int, a, b);
                }
            }
        }
    }

    /// Upgrade `entity`'s reservation of a cell to a permanent occupation.
    pub fn make_permanent(&mut self, x: i32, y: i32, entity: EntityId) -> (r: bool)
        requires
            old(self).wf(),
        ensures
            final(self).wf(),
            r == held_by(old(self).reserved_at(x as int, y as int), entity),
            !r ==> *final(self) == *old(self),
            final(self).same_but_reservations(old(self)),
            forall|a: int, b: int|
                #![trigger final(self).reserved_at(a, b)]
                final(self).reserved_at(a, b) == if r && a == x && b == y {
                    Some(ReservationEntry { entity, duration: ReservationDuration::Permanent, intent: CellIntent::Occupy })
                } else {
                    old(self).reserved_at(a, b)
                },
    {
        let i = match self.index(x, y) {
            Some(i) => i,
            None => {
                return false;
            },
        };
        let held = match &self.reserved[i] {
            Some(entry) => entry.entity == entity,
            None => false,
        };
        if !held {
            return false;
        }
        self.set_reservation(
            x,
            y,
            i,
            Some(ReservationEntry { entity, duration: ReservationDuration::Permanent, intent: CellIntent::Occupy }),
        );
        true
    }

    // ── Pathfinding ────────────────────────────────────────

    /// Inside the grid, with neither a floor entity nor a reservation.
    pub fn is_walkable(&self, x: i32, y: i32) -> (r: bool)
        requires
            self.wf(),
        ensures
            r == self.spec_walkable(x as int, y as int),
    {
        match self.index(x, y) {
            Some(i) => self.floor[i].is_none() && self.reserved[i].is_none(),
            None => false,
        }
    }

    /// Like `is_walkable`, but `entity`'s own reservation does not block.
    pub fn is_walkable_for(&self, x: i32, y: i32, entity: EntityId) -> (r: bool)
        requires
            self.wf(),
        ensures
            r == self.spec_walkable_for(x as int, y as int, entity),
    {
        match self.index(x, y) {
            Some(i) => self.floor[i].is_none() && match &self.reserved[i] {
                None => true,
                Some(r) => r.entity == entity,
            },
            None => false,
        }
    }

    /// Atomic check-and-claim of a cell for `entity` with the given intent.
    /// `ttl` is the reservation's lifetime in ticks, `None` when the agent's
    /// speed or the tick length is not positive, which blocks every claim.
    /// A free cell or one already held by `entity` is claimed (refreshing the
    /// lifetime); a cell held by another entity is taken over only by a
    /// strictly higher priority, which reports the bumped entity.
    pub fn try_reserve(&mut self, x: i32, y: i32, entity: EntityId, intent: CellIntent, ttl: Option<u8>) -> (r: ReserveResult)
        requires
            old(self).wf(),
        ensures
            final(self).wf(),
            final(self).same_but_reservations(old(self)),
            r == spec_try_reserve(old(self).in_bounds(x as int, y as int), old(self).reserved_at(x as int, y as int), entity, intent, ttl),
            forall|a: int, b: int|
                #![trigger final(self).reserved_at(a, b)]
                final(self).reserved_at(a, b) == if a == x && b == y && r != ReserveResult::Blocked {
                    Some(ReservationEntry { entity, duration: ReservationDuration::Timed(ttl->0), intent })
                } else {
                    old(self).reserved_at(a, b)
                },
    {
        let i = match self.index(x, y) {
            Some(i) => i,
            None => {
                return ReserveResult::Blocked;
            },
        };
        let ttl = match ttl {
            Some(t) => t,
            None => {
                return ReserveResult::Blocked;
            },
        };
        let entry = ReservationEntry { entity, duration: ReservationDuration::Timed(ttl), intent };
        match self.reserved[i] {
            None => {
                self.set_reservation(x, y, i, Some(entry));
                ReserveResult::Claimed
            },
            Some(existing) => {
                if existing.entity == entity {
                    self.set_reservation(x, y, i, Some(entry));
                    ReserveResult::Claimed
                } else {
                    let our_priority = priority_value(entity, intent);
                    let their_priority = priority_value(existing.entity, existing.intent);
                    if our_priority > their_priority {
                        self.set_reservation(x, y, i, Some(entry));
                        ReserveResult::Preempted(existing.entity)
                    } else {
                        ReserveResult::Blocked
                    }
                }
            },
        }
    }

    /// Age every timed reservation by one tick; those reaching zero expire.
    /// Permanent reservations are untouched.
    pub fn tick_reservations(&mut self)
        requires
            old(self).wf(),
        ensures
            final(self).wf(),
            final(self).same_but_reservations(old(self)),
            forall|a: int, b: int|
                #![trigger final(self).reserved_at(a, b)]
                final(self).reserved_at(a, b) == spec_tick(old(self).reserved_at(a, b)),
    {
        let ghost pre = *self;
        let mut i: usize = 0;
        while i < self.reserved.len()
            invariant
                pre.wf(),
                self.wf(),
                self.same_but_reservations(&pre),
                0 <= i <= self.reserved@.len(),
                self.reserved@.len() == pre.reserved@.len(),
                forall|j: int|
                    0 <= j < self.reserved@.len() ==> #[trigger] self.reserved@[j] == if j < i {
                        spec_tick(pre.reserved@[j])
                    } else {
                        pre.reserved@[j]
                    },
            decreases self.reserved@.len() - i,
        {
            let next = match self.reserved[i] {
                Some(r) => match r.duration {
                    ReservationDuration::Timed(ttl) => {
                        let left = ttl.saturating_sub(1);
                        if left == 0 {
                            None
                        } else {
                            Some(ReservationEntry { entity: r.entity, duration: ReservationDuration::Timed(left), intent: r.intent })
                        }
                    },
                    ReservationDuration::Permanent => Some(r),
                },
                None => None,
            };
            let ghost mid = *self;
            self.reserved.set(i, next);
            proof {
                assert forall|a: int, b: int| #[trigger] self.floor_at(a, b) == pre.floor_at(a, b) by {
                    assert(self.floor_at(a, b) == mid.floor_at(a, b));
                }
                assert forall|a: int, b: int| #[trigger] self.ceiling_at(a, b) == pre.ceiling_at(a, b) by {
                    assert(self.ceiling_at(a, b) == mid.ceiling_at(a, b));
                }
                assert forall|a: int, b: int| #[trigger] self.surface_at(a, b) == pre.surface_at(a, b) by {
                    assert(self.surface_at(a, b) == mid.surface_at(a, b));
                }
            }
            i = i + 1;
        }
        proof {
            assert forall|a: int, b: int| #![trigger self.reserved_at(a, b)] self.reserved_at(a, b) == spec_tick(pre.reserved_at(a, b)) by {
                if pre.in_bounds(a, b) {
                    lemma_cell_index_bounds(pre.width as int, pre.height as int, a, b);
                }
            }
        }
    }
}

/// Floor entities of the four neighbours of `(x, y)` in the order +x, -x, +y, -y.
pub open spec fn neighbor_floors(g: GridLayers, x: int, y: int) -> Seq<EntityId> {
    option_seq(g.floor_at(x + 1, y)) + option_seq(g.floor_at(x - 1, y)) + option_seq(g.floor_at(x, y + 1))
        + option_seq(g.floor_at(x, y - 1))
}

/// The value of an option as a sequence of zero or one element.
pub open spec fn option_seq<T>(o: Option<T>) -> Seq<T> {
    match o {
        Some(v) => seq![v],
        None => Seq::empty(),
    }
}

/// The reservation exists and belongs to `e`.
pub open spec fn held_by(r: Option<ReservationEntry>, e: EntityId) -> bool {
    match r {
        Some(x) => x.entity == e,
        None => false,
    }
}

/// Outcome of a reservation attempt on a cell in the given state.
pub open spec fn spec_try_reserve(
    in_bounds: bool,
    current: Option<ReservationEntry>,
    entity: EntityId,
    intent: CellIntent,
    ttl: Option<u8>,
) -> ReserveResult {
    if !in_bounds || ttl is None {
        ReserveResult::Blocked
    } else {
        match current {
            None => ReserveResult::Claimed,
            Some(existing) => if existing.entity == entity {
                ReserveResult::Claimed
            } else if spec_priority(entity, intent) > spec_priority(existing.entity, existing.intent) {
                ReserveResult::Preempted(existing.entity)
            } else {
                ReserveResult::Blocked
            },
        }
    }
}

/// A reservation after one tick: timed ones lose a tick and expire at zero.
pub open spec fn spec_tick(r: Option<ReservationEntry>) -> Option<ReservationEntry> {
    match r {
        Some(e) => match e.duration {
            ReservationDuration::Timed(t) => if t <= 1 {
                None
            } else {
                Some(ReservationEntry { entity: e.entity, duration: ReservationDuration::Timed((t - 1) as u8), intent: e.intent })
            },
            ReservationDuration::Permanent => Some(e),
        },
        None => None,
    }
}

/// A reservation after `n` ticks.
pub open spec fn ticks(r: Option<ReservationEntry>, n: nat) -> Option<ReservationEntry>
    decreases n,
{
    if n == 0 {
        r
    } else {
        ticks(spec_tick(r), (n - 1) as nat)
    }
}

/// Ticking never removes or changes a permanent reservation.
pub proof fn law_tick_keeps_permanent(e: ReservationEntry, n: nat)
    requires
        e.duration == ReservationDuration::Permanent,
    ensures
        ticks(Some(e), n) == Some(e),
    decreases n,
{
    if n > 0 {
        law_tick_keeps_permanent(e, (n - 1) as nat);
    }
}

/// A reservation timed for `t` ticks is gone after `t` ticks and still held
/// before that.
pub proof fn law_timed_reservation_expires(e: ReservationEntry, t: u8, n: nat)
    requires
        e.duration == ReservationDuration::Timed(t),
        t >= 1,
    ensures
        n >= t ==> ticks(Some(e), n) is None,
        n < t ==> ticks(Some(e), n) == Some(ReservationEntry { entity: e.entity, duration: ReservationDuration::Timed((t - n) as u8), intent: e.intent }),
    decreases n,
{
    if n > 0 {
        if t == 1 {
            assert(spec_tick(Some(e)) is None);
            lemma_ticks_none((n - 1) as nat);
        } else {
            let e2 = ReservationEntry { entity: e.entity, duration: ReservationDuration::Timed((t - 1) as u8), intent: e.intent };
            assert(spec_tick(Some(e)) == Some(e2));
            law_timed_reservation_expires(e2, (t - 1) as u8, (n - 1) as nat);
        }
    } else {
        assert(e == ReservationEntry { entity: e.entity, duration: ReservationDuration::Timed((t - 0) as u8), intent: e.intent });
    }
}

proof fn lemma_ticks_none(n: nat)
    ensures
        ticks(None, n) is None,
    decreases n,
{
    if n > 0 {
        lemma_ticks_none((n - 1) as nat);
    }
}

/// A walkable cell is walkable for every entity.
pub proof fn law_walkable_for_everyone(g: GridLayers, x: int, y: int, e: EntityId)
    requires
        g.spec_walkable(x, y),
    ensures
        g.spec_walkable_for(x, y, e),
{
}

/// A reservation never blocks its own holder, and a stronger intent (occupy
/// over transient over intend) always takes a cell from a weaker one,
/// whatever the entity ids.
pub proof fn law_reserve_priority(
    current: ReservationEntry,
    entity: EntityId,
    intent: CellIntent,
    ttl: u8,
)
    ensures
        current.entity == entity ==> spec_try_reserve(true, Some(current), entity, intent, Some(ttl)) == ReserveResult::Claimed,
        current.entity != entity && rank(intent) > rank(current.intent) ==> spec_try_reserve(
            true,
            Some(current),
            entity,
            intent,
            Some(ttl),
        ) == ReserveResult::Preempted(current.entity),
        current.entity != entity && rank(intent) < rank(current.intent) ==> spec_try_reserve(
            true,
            Some(current),
            entity,
            intent,
            Some(ttl),
        ) == ReserveResult::Blocked,
{
}

/// The strength of an intent: occupy 3, transient 2, intend 1.
pub open spec fn rank(i: CellIntent) -> int {
    match i {
        CellIntent::Occupy => 3,
        CellIntent::Transient => 2,
        CellIntent::Intend => 1,
    }
}

/// Releasing a cell that an entity had just reserved while it was free
/// restores the reservation layer.
pub proof fn law_release_undoes_reserve(before: GridLayers, mid: GridLayers, after: GridLayers, x: i32, y: i32, e: EntityId)
    requires
        before.reserved_at(x as int, y as int) is None,
        forall|a: int, b: int|
            #![trigger mid.reserved_at(a, b)]
            mid.reserved_at(a, b) == if a == x && b == y {
                Some(ReservationEntry { entity: e, duration: ReservationDuration::Permanent, intent: CellIntent::Occupy })
            } else {
                before.reserved_at(a, b)
            },
        forall|a: int, b: int|
            #![trigger after.reserved_at(a, b)]
            after.reserved_at(a, b) == if a == x && b == y && held_by(mid.reserved_at(a, b), e) {
                None
            } else {
                mid.reserved_at(a, b)
            },
    ensures
        forall|a: int, b: int| #[trigger] after.reserved_at(a, b) == before.reserved_at(a, b),
{
    assert forall|a: int, b: int| #[trigger] after.reserved_at(a, b) == before.reserved_at(a, b) by {
        assert(mid.reserved_at(a, b) == if a == x && b == y {
            Some(ReservationEntry { entity: e, duration: ReservationDuration::Permanent, intent: CellIntent::Occupy })
        } else {
            before.reserved_at(a, b)
        });
    }
}

/// Removing an entity from the floor cells it was just placed on restores
/// the floor layer.
pub proof fn law_remove_floor_undoes_place(before: GridLayers, mid: GridLayers, after: GridLayers, cells: Seq<(i32, i32)>, e: EntityId)
    requires
        before.floor_free(cells),
        forall|x: int, y: int|
            #![trigger mid.floor_at(x, y)]
            mid.floor_at(x, y) == if cells.contains((x as i32, y as i32)) && before.in_bounds(x, y) {
                Some(e)
            } else {
                before.floor_at(x, y)
            },
        mid.width == before.width && mid.height == before.height,
        forall|x: int, y: int|
            #![trigger after.floor_at(x, y)]
            after.floor_at(x, y) == if cells.contains((x as i32, y as i32)) && mid.in_bounds(x, y) && mid.floor_at(x, y) == Some(e) {
                None
            } else {
                mid.floor_at(x, y)
            },
    ensures
        forall|x: int, y: int| #[trigger] after.floor_at(x, y) == before.floor_at(x, y),
{
    assert forall|x: int, y: int| #[trigger] after.floor_at(x, y) == before.floor_at(x, y) by {
        assert(mid.floor_at(x, y) == if cells.contains((x as i32, y as i32)) && before.in_bounds(x, y) {
            Some(e)
        } else {
            before.floor_at(x, y)
        });
        if cells.contains((x as i32, y as i32)) && before.in_bounds(x, y) {
            let k = choose|k: int| 0 <= k < cells.len() && cells[k] == (x as i32, y as i32);
            assert(before.in_bounds(cells[k].0 as int, cells[k].1 as int) && before.floor_at(cells[k].0 as int, cells[k].1 as int) is None);
        }
    }
}

/// Only the floor and the reservations decide walking: changing the ceiling
/// or the surface layer leaves every cell as walkable as it was.
pub proof fn law_ceiling_and_surface_do_not_block(before: GridLayers, after: GridLayers, x: int, y: int, e: EntityId)
    requires
        after.same_but_ceiling(&before) || after.same_but_surface(&before),
    ensures
        after.spec_walkable(x, y) == before.spec_walkable(x, y),
        after.spec_walkable_for(x, y, e) == before.spec_walkable_for(x, y, e),
{
    assert(after.floor_at(x, y) == before.floor_at(x, y));
    assert(after.reserved_at(x, y) == before.reserved_at(x, y));
}

} // verus!
