//! Facing directions, appliance footprints and the per-entity state enums.

use vstd::prelude::*;

verus! {

/// Entities are identified by the 64-bit value of their ECS id.
pub type EntityId = u64;

/// World-grid position customers navigate to when leaving.
pub const EXIT_POSITION: (i32, i32) = (0, 0);

/// A cell on the world grid.
#[derive(Clone, Copy, Debug, PartialEq, Eq, Structural)]
pub struct GridPosition {
    pub x: i32,
    pub z: i32,
}

/// The cells an agent still has to walk through after its current segment.
pub struct PathQueue {
    pub path: std::collections::VecDeque<(i32, i32)>,
}

/// What arriving at the end of a movement segment leads to.
#[derive(Clone, Copy, Debug, PartialEq, Eq)]
pub enum SegmentEnd {
    /// Walk the next segment, from the reached cell to `to`.
    Next { from: (i32, i32), to: (i32, i32) },
    /// The path is done; the movement ends.
    Complete,
}

/// An agent arriving at `to` stands there; the next waypoint, if any, is
/// taken from the front of the path and becomes the next segment.
pub fn arrive_at_waypoint(path: &mut PathQueue, to: (i32, i32)) -> (r: (GridPosition, SegmentEnd))
    ensures
        r.0 == (GridPosition { x: to.0, z: to.1 }),
        old(path).path@.len() > 0 ==> r.1 == (SegmentEnd::Next { from: to, to: old(path).path@[0] })
            && final(path).path@ == old(path).path@.skip(1),
        old(path).path@.len() == 0 ==> r.1 == SegmentEnd::Complete && final(path).path@ == old(path).path@,
{
    let pos = GridPosition { x: to.0, z: to.1 };
    match path.path.pop_front() {
        Some(next) => {
            proof {
                assert(path.path@ =~= old(path).path@.skip(1));
            }
            (pos, SegmentEnd::Next { from: to, to: next })
        },
        None => (pos, SegmentEnd::Complete),
    }
}

/// The four facing directions of an appliance, in clockwise order.
#[derive(Clone, Copy, Debug, PartialEq, Eq, Structural)]
pub enum GridDirection {
    PosZ,
    NegX,
    NegZ,
    PosX,
}

/// Unit step of a facing direction on the (x, z) grid.
pub open spec fn spec_facing_offset(d: GridDirection) -> (i32, i32) {
    match d {
        GridDirection::PosZ => (0, 1),
        GridDirection::NegZ => (0i32, -1i32),
        GridDirection::PosX => (1, 0),
        GridDirection::NegX => (-1i32, 0i32),
    }
}

/// The next direction clockwise.
pub open spec fn spec_rotate_cw(d: GridDirection) -> GridDirection {
    match d {
        GridDirection::PosZ => GridDirection::NegX,
        GridDirection::NegX => GridDirection::NegZ,
        GridDirection::NegZ => GridDirection::PosX,
        GridDirection::PosX => GridDirection::PosZ,
    }
}

/// Directions along the z axis keep (width, depth); x-facing ones swap them.
pub open spec fn spec_actual_dimensions(base_width: i32, base_depth: i32, dir: GridDirection) -> (i32, i32) {
    match dir {
        GridDirection::PosZ | GridDirection::NegZ => (base_width, base_depth),
        GridDirection::PosX | GridDirection::NegX => (base_depth, base_width),
    }
}

impl GridDirection {
    pub fn rotate_cw(self) -> (r: Self)
        ensures
            r == spec_rotate_cw(self),
    {
        match self {
            GridDirection::PosZ => GridDirection::NegX,
            GridDirection::NegX => GridDirection::NegZ,
            GridDirection::NegZ => GridDirection::PosX,
            GridDirection::PosX => GridDirection::PosZ,
        }
    }

    pub fn actual_dimensions(base_width: i32, base_depth: i32, dir: Self) -> (r: (i32, i32))
        ensures
            r == spec_actual_dimensions(base_width, base_depth, dir),
    {
        match dir {
            GridDirection::PosZ | GridDirection::NegZ => (base_width, base_depth),
            GridDirection::PosX | GridDirection::NegX => (base_depth, base_width),
        }
    }

    pub fn facing_offset(self) -> (r: (i32, i32))
        ensures
            r == spec_facing_offset(self),
    {
        match self {
            GridDirection::PosZ => (0, 1),
            GridDirection::NegZ => (0, -1),
            GridDirection::PosX => (1, 0),
            GridDirection::NegX => (-1, 0),
        }
    }
}

/// Physical shape of an appliance: which cells it covers, not what it is.
#[derive(Clone, Copy, Debug, PartialEq, Eq, Structural)]
pub struct ApplianceGeometry {
    pub base_width: i32,
    pub base_depth: i32,
    pub direction: GridDirection,
}

/// Extent of the footprint along x and z.
pub open spec fn footprint_dims(g: ApplianceGeometry) -> (int, int) {
    let d = spec_actual_dimensions(g.base_width, g.base_depth, g.direction);
    (d.0 as int, d.1 as int)
}

/// Corner cell with the smallest coordinates: +Z / -X facing appliances grow
/// towards +x/+z from the anchor, -Z / +X facing ones towards -x/-z.
pub open spec fn footprint_start(g: ApplianceGeometry, anchor: (i32, i32)) -> (int, int) {
    let (w, d) = footprint_dims(g);
    match g.direction {
        GridDirection::PosZ | GridDirection::NegX => (anchor.0 as int, anchor.1 as int),
        GridDirection::NegZ | GridDirection::PosX => (anchor.0 - w + 1, anchor.1 - d + 1),
    }
}

/// The `w x d` cells of the rectangle whose smallest corner is `(sx, sz)`,
/// column by column along x, each column in increasing z.
pub open spec fn rect_cells(sx: int, sz: int, w: int, d: int) -> Seq<(i32, i32)> {
    if w > 0 && d > 0 {
        Seq::new((w * d) as nat, |k: int| ((sx + k / d) as i32, (sz + k % d) as i32))
    } else {
        Seq::empty()
    }
}

/// The rectangle can be allocated and its coordinates fit in `i32`.
pub open spec fn rect_fits(sx: int, sz: int, w: int, d: int) -> bool {
    &&& 0 <= w * d <= i32::MAX
    &&& (w > 0 && d > 0) ==> {
        &&& i32::MIN <= sx
        &&& sx + w - 1 <= i32::MAX
        &&& i32::MIN <= sz
        &&& sz + d - 1 <= i32::MAX
    }
}

/// The cells covered by an appliance, column by column along x, each column in
/// increasing z.
pub open spec fn spec_footprint(g: ApplianceGeometry, anchor: (i32, i32)) -> Seq<(i32, i32)> {
    let (w, d) = footprint_dims(g);
    let (sx, sz) = footprint_start(g, anchor);
    rect_cells(sx, sz, w, d)
}

/// The footprint can be allocated and all of its coordinates fit in `i32`.
pub open spec fn footprint_fits(g: ApplianceGeometry, anchor: (i32, i32)) -> bool {
    let (w, d) = footprint_dims(g);
    let (sx, sz) = footprint_start(g, anchor);
    &&& 0 <= w * d <= i32::MAX
    &&& (g.direction == GridDirection::NegZ || g.direction == GridDirection::PosX) ==> {
        &&& i32::MIN <= anchor.0 - w && anchor.0 - w + 1 <= i32::MAX
        &&& i32::MIN <= anchor.1 - d && anchor.1 - d + 1 <= i32::MAX
    }
    &&& (w > 0 && d > 0) ==> {
        &&& i32::MIN <= sx
        &&& sx + w - 1 <= i32::MAX
        &&& i32::MIN <= sz
        &&& sz + d - 1 <= i32::MAX
    }
}

/// All grid cells covered by an appliance placed at `anchor`.
pub fn get_footprint(geometry: &ApplianceGeometry, anchor: (i32, i32)) -> (cells: Vec<(i32, i32)>)
    requires
        footprint_fits(*geometry, anchor),
    ensures
        cells@ == spec_footprint(*geometry, anchor),
{
    let (w, d) = GridDirection::actual_dimensions(geometry.base_width, geometry.base_depth, geometry.direction);
    let (start_x, start_z) = match geometry.direction {
        GridDirection::PosZ | GridDirection::NegX => (anchor.0, anchor.1),
        GridDirection::NegZ | GridDirection::PosX => (anchor.0 - w + 1, anchor.1 - d + 1),
    };
    rect(start_x, start_z, w, d)
}

/// The cells of the `w x d` rectangle whose smallest corner is
/// `(start_x, start_z)`, column by column along x, each column in increasing z.
pub fn rect(start_x: i32, start_z: i32, w: i32, d: i32) -> (cells: Vec<(i32, i32)>)
    requires
        rect_fits(start_x as int, start_z as int, w as int, d as int),
    ensures
        cells@ == rect_cells(start_x as int, start_z as int, w as int, d as int),
{
    let ghost sp = (start_x as int, start_z as int);
    let mut cells: Vec<(i32, i32)> = Vec::with_capacity((w * d) as usize);
    if w <= 0 || d <= 0 {
        return cells;
    }
    let ghost target = rect_cells(start_x as int, start_z as int, w as int, d as int);
    let mut dx: i32 = 0;
    while dx < w
        invariant
            0 < w,
            0 < d,
            0 <= dx <= w,
            rect_fits(sp.0, sp.1, w as int, d as int),
            (start_x as int, start_z as int) == sp,
            target == rect_cells(sp.0, sp.1, w as int, d as int),
            cells@ == target.subrange(0, dx * d),
        decreases w - dx,
    {
        let mut dz: i32 = 0;
        while dz < d
            invariant
                0 < w,
                0 < d,
                0 <= dx < w,
                0 <= dz <= d,
                rect_fits(sp.0, sp.1, w as int, d as int),
                (start_x as int, start_z as int) == sp,
                target == rect_cells(sp.0, sp.1, w as int, d as int),
                cells@ == target.subrange(0, dx * d + dz),
            decreases d - dz,
        {
            proof {
                let k = dx * d + dz;
                assert(0 <= k < w * d) by (nonlinear_arith)
                    requires
                        0 <= dx < w,
                        0 <= dz < d,
                        k == dx * d + dz,
                ;
                assert(k / (d as int) == dx as int && k % (d as int) == dz as int) by (nonlinear_arith)
                    requires
                        0 <= dz < d,
                        0 <= dx,
                        k == dx * d + dz,
                ;
                assert(target[k] == ((sp.0 + dx) as i32, (sp.1 + dz) as i32));
                assert(target.subrange(0, k + 1) == target.subrange(0, k).push(target[k]));
            }
            cells.push((start_x + dx, start_z + dz));
            dz = dz + 1;
        }
        proof {
            assert(dx * d + d == (dx + 1) * d) by (nonlinear_arith);
        }
        dx = dx + 1;
    }
    proof {
        assert(target.len() == w * d);
        assert(target.subrange(0, w * d) == target);
    }
    cells
}

/// Occupancy state of a table through a customer visit.
#[derive(Clone, Copy, Debug, PartialEq, Eq, Structural)]
pub enum TableState {
    Empty,
    /// A customer group is seated.
    Occupied,
    /// An order is placed and waits for cooking.
    Ordered,
    /// Food is delivered and being eaten.
    Served,
    /// The customers left; the table awaits cleanup.
    Dirty,
}

#[derive(Clone, Copy, Debug, PartialEq, Eq, Structural)]
pub enum ChairState {
    Available,
    Reserved,
    Occupied,
}

#[derive(Clone, Copy, Debug, PartialEq, Eq, Structural)]
pub enum RegisterState {
    Idle,
    Checkout,
}

impl Default for TableState {
    fn default() -> (r: Self)
        ensures
            r == TableState::Empty,
    {
        TableState::Empty
    }
}

impl Default for ChairState {
    fn default() -> (r: Self)
        ensures
            r == ChairState::Available,
    {
        ChairState::Available
    }
}

impl Default for RegisterState {
    fn default() -> (r: Self)
        ensures
            r == RegisterState::Idle,
    {
        RegisterState::Idle
    }
}

/// Four clockwise quarter turns face the original direction again.
pub proof fn law_rotate_four_times(d: GridDirection)
    ensures
        spec_rotate_cw(spec_rotate_cw(spec_rotate_cw(spec_rotate_cw(d)))) == d,
{
}

/// A clockwise quarter turn rotates the facing step: `(x, z)` becomes `(-z, x)`.
pub proof fn law_rotate_turns_offset(d: GridDirection)
    ensures
        spec_facing_offset(spec_rotate_cw(d)).0 == -spec_facing_offset(d).1,
        spec_facing_offset(spec_rotate_cw(d)).1 == spec_facing_offset(d).0,
{
}

/// A quarter turn swaps the extents of a footprint along x and z.
pub proof fn law_rotate_swaps_dimensions(base_width: i32, base_depth: i32, d: GridDirection)
    ensures
        spec_actual_dimensions(base_width, base_depth, spec_rotate_cw(d)).0 == spec_actual_dimensions(base_width, base_depth, d).1,
        spec_actual_dimensions(base_width, base_depth, spec_rotate_cw(d)).1 == spec_actual_dimensions(base_width, base_depth, d).0,
{
}

/// A footprint of positive extents holds `width x depth` distinct cells,
/// the anchor among them.
pub proof fn law_footprint_cells(g: ApplianceGeometry, anchor: (i32, i32))
    requires
        footprint_dims(g).0 > 0,
        footprint_dims(g).1 > 0,
        footprint_fits(g, anchor),
    ensures
        spec_footprint(g, anchor).len() == footprint_dims(g).0 * footprint_dims(g).1,
        spec_footprint(g, anchor).no_duplicates(),
        spec_footprint(g, anchor).contains(anchor),
{
    let (w, d) = footprint_dims(g);
    let (sx, sz) = footprint_start(g, anchor);
    let fp = spec_footprint(g, anchor);
    assert(w * d > 0) by (nonlinear_arith)
        requires
            w > 0,
            d > 0,
    ;
    assert forall|i: int, j: int| 0 <= i < fp.len() && 0 <= j < fp.len() && i != j implies fp[i] != fp[j] by {
        vstd::arithmetic::div_mod::lemma_fundamental_div_mod(i, d);
        vstd::arithmetic::div_mod::lemma_fundamental_div_mod(j, d);
        vstd::arithmetic::div_mod::lemma_mod_bound(i, d);
        assert(0 <= i / d < w) by (nonlinear_arith)
            requires
                i == d * (i / d) + i % d,
                0 <= i % d < d,
                0 <= i < w * d,
                d > 0,
        ;
        vstd::arithmetic::div_mod::lemma_mod_bound(j, d);
        assert(0 <= j / d < w) by (nonlinear_arith)
            requires
                j == d * (j / d) + j % d,
                0 <= j % d < d,
                0 <= j < w * d,
                d > 0,
        ;
        vstd::arithmetic::div_mod::lemma_mod_bound(i, d);
        vstd::arithmetic::div_mod::lemma_mod_bound(j, d);
        if i / d == j / d && i % d == j % d {
            assert(i == j);
        }
    }
    let last = w * d - 1;
    assert(last / d == w - 1 && last % d == d - 1) by {
        assert(last == (w - 1) * d + (d - 1)) by (nonlinear_arith)
            requires
                last == w * d - 1,
        ;
        vstd::arithmetic::div_mod::lemma_fundamental_div_mod_converse(last, d, w - 1, d - 1);
    }
    if g.direction == GridDirection::PosZ || g.direction == GridDirection::NegX {
        assert(0int / d == 0 && 0int % d == 0) by {
            vstd::arithmetic::div_mod::lemma_fundamental_div_mod_converse(0, d, 0, 0);
        }
        assert(fp[0] == anchor);
    } else {
        assert(fp[last] == anchor);
    }
}

} // verus!
