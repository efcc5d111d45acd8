//! Appliance shapes of the simulation, service-slot placement and the
//! phases that customers and staff move through.

use vstd::prelude::*;
use crate::base::components::{
    footprint_dims, rect, rect_cells, rect_fits, spec_actual_dimensions, spec_facing_offset,
    ApplianceGeometry as CoreGeometry, EntityId, GridDirection,
};

verus! {

/// Physical shape of an appliance: `right` cells to the right of its facing
/// direction and `forward` cells along it, from the left-back anchor.
#[derive(Clone, Copy, Debug, PartialEq, Eq, Structural)]
pub struct ApplianceGeometry {
    pub right: i32,
    pub forward: i32,
    pub direction: GridDirection,
}

impl ApplianceGeometry {
    /// The same shape in width/depth terms: width runs to the right, depth forward.
    pub open spec fn as_core(self) -> CoreGeometry {
        CoreGeometry { base_width: self.right, base_depth: self.forward, direction: self.direction }
    }
}

/// Unit step to the right of a facing direction: +Z facing has +x on its
/// right, -Z has -x, +X has -z and -X has +z.
pub open spec fn right_of(d: GridDirection) -> (i32, i32) {
    match d {
        GridDirection::PosZ => (1, 0),
        GridDirection::NegZ => (-1i32, 0i32),
        GridDirection::PosX => (0i32, -1i32),
        GridDirection::NegX => (0, 1),
    }
}

/// The cell `f` steps forward and `r` steps right of the anchor.
pub open spec fn shape_cell(g: ApplianceGeometry, anchor: (i32, i32), f: int, r: int) -> (int, int) {
    let fw = spec_facing_offset(g.direction);
    let rt = right_of(g.direction);
    (anchor.0 + f * fw.0 + r * rt.0, anchor.1 + f * fw.1 + r * rt.1)
}

/// Smallest corner of the footprint of an appliance whose left-back corner
/// is `anchor`.
pub open spec fn sim_footprint_start(g: ApplianceGeometry, anchor: (i32, i32)) -> (int, int) {
    let (w, d) = footprint_dims(g.as_core());
    match g.direction {
        GridDirection::PosZ => (anchor.0 as int, anchor.1 as int),
        GridDirection::NegZ => (anchor.0 - w + 1, anchor.1 - d + 1),
        GridDirection::PosX => (anchor.0 as int, anchor.1 - d + 1),
        GridDirection::NegX => (anchor.0 - w + 1, anchor.1 as int),
    }
}

/// The footprint's cells, column by column along x, each column in increasing z.
pub open spec fn sim_footprint(g: ApplianceGeometry, anchor: (i32, i32)) -> Seq<(i32, i32)> {
    let (w, d) = footprint_dims(g.as_core());
    let (sx, sz) = sim_footprint_start(g, anchor);
    rect_cells(sx, sz, w, d)
}

/// The footprint can be allocated and its coordinates, and the smallest
/// corner's, fit in `i32`.
pub open spec fn sim_footprint_fits(g: ApplianceGeometry, anchor: (i32, i32)) -> bool {
    let (w, d) = footprint_dims(g.as_core());
    let (sx, sz) = sim_footprint_start(g, anchor);
    &&& i32::MIN <= sx <= i32::MAX
    &&& i32::MIN <= sz <= i32::MAX
    &&& (g.direction == GridDirection::NegZ || g.direction == GridDirection::NegX) ==> i32::MIN <= anchor.0 - w
    &&& (g.direction == GridDirection::NegZ || g.direction == GridDirection::PosX) ==> i32::MIN <= anchor.1 - d
    &&& rect_fits(sx, sz, w, d)
}

/// All grid cells occupied by an appliance whose left-back corner is `anchor`:
/// the cells `f` steps forward and `r` steps to the right of the anchor, for
/// `f` below `forward` and `r` below `right`. +Z facing: right = +x,
/// forward = +z; -Z: right = -x, forward = -z; +X: right = -z, forward = +x;
/// -X: right = +z, forward = -x.
pub fn get_footprint(geometry: &ApplianceGeometry, anchor: (i32, i32)) -> (cells: Vec<(i32, i32)>)
    requires
        sim_footprint_fits(*geometry, anchor),
    ensures
        cells@ == sim_footprint(*geometry, anchor),
        geometry.right > 0 && geometry.forward > 0 ==> cells@.len() == geometry.right * geometry.forward,
        forall|f: int, r: int|
            0 <= f < geometry.forward && 0 <= r < geometry.right ==> cells@.contains(
                #[trigger] cast_cell(shape_cell(*geometry, anchor, f, r)),
            ),
        forall|k: int| 0 <= k < cells@.len() ==> in_shape(*geometry, anchor, #[trigger] cells@[k]),
{
    let (w, d) = GridDirection::actual_dimensions(geometry.right, geometry.forward, geometry.direction);
    let (start_x, start_z) = match geometry.direction {
        GridDirection::PosZ => (anchor.0, anchor.1),
        GridDirection::NegZ => (anchor.0 - w + 1, anchor.1 - d + 1),
        GridDirection::PosX => (anchor.0, anchor.1 - d + 1),
        GridDirection::NegX => (anchor.0 - w + 1, anchor.1),
    };
    let cells = rect(start_x, start_z, w, d);
    proof {
        lemma_footprint_shape(*geometry, anchor);
    }
    cells
}

/// A cell given by whole numbers, as an `i32` pair.
pub open spec fn cast_cell(c: (int, int)) -> (i32, i32) {
    (c.0 as i32, c.1 as i32)
}

/// `c` is some cell `f` steps forward and `r` steps right of the anchor,
/// `f` below `forward` and `r` below `right`.
pub open spec fn in_shape(g: ApplianceGeometry, anchor: (i32, i32), c: (i32, i32)) -> bool {
    exists|f: int, r: int| 0 <= f < g.forward && 0 <= r < g.right && c == cast_cell(#[trigger] shape_cell(g, anchor, f, r))
}

/// Index in the footprint of the cell `f` forward and `r` right, and back.
pub open spec fn shape_index(g: ApplianceGeometry, f: int, r: int) -> int {
    let (w, d) = footprint_dims(g.as_core());
    match g.direction {
        GridDirection::PosZ => r * d + f,
        GridDirection::NegZ => (w - 1 - r) * d + (d - 1 - f),
        GridDirection::PosX => f * d + (d - 1 - r),
        GridDirection::NegX => (w - 1 - f) * d + r,
    }
}

proof fn lemma_shape_cell(g: ApplianceGeometry, anchor: (i32, i32), f: int, r: int)
    ensures
        shape_cell(g, anchor, f, r) == match g.direction {
            GridDirection::PosZ => (anchor.0 + r, anchor.1 + f),
            GridDirection::NegZ => (anchor.0 - r, anchor.1 - f),
            GridDirection::PosX => (anchor.0 + f, anchor.1 - r),
            GridDirection::NegX => (anchor.0 - f, anchor.1 + r),
        },
{
    match g.direction {
        GridDirection::PosZ => {
            assert(f * 0 == 0 && r * 1 == r && f * 1 == f && r * 0 == 0);
        },
        GridDirection::NegZ => {
            assert(f * 0 == 0 && r * -1 == -r && f * -1 == -f && r * 0 == 0);
        },
        GridDirection::PosX => {
            assert(f * 0 == 0 && r * -1 == -r && f * 1 == f && r * 0 == 0);
        },
        GridDirection::NegX => {
            assert(f * 0 == 0 && r * 1 == r && f * -1 == -f && r * 0 == 0);
        },
    }
}

proof fn lemma_footprint_shape(g: ApplianceGeometry, anchor: (i32, i32))
    requires
        sim_footprint_fits(g, anchor),
    ensures
        ({
            let cells = sim_footprint(g, anchor);
            &&& g.right > 0 && g.forward > 0 ==> cells.len() == g.right * g.forward
            &&& forall|f: int, r: int|
                0 <= f < g.forward && 0 <= r < g.right ==> cells.contains(#[trigger] cast_cell(shape_cell(g, anchor, f, r)))
            &&& forall|k: int| 0 <= k < cells.len() ==> in_shape(g, anchor, #[trigger] cells[k])
        }),
{
    let cells = sim_footprint(g, anchor);
    let (w, d) = footprint_dims(g.as_core());
    let (sx, sz) = sim_footprint_start(g, anchor);
    if g.right > 0 && g.forward > 0 {
        assert(w * d == g.right * g.forward) by (nonlinear_arith)
            requires
                (w == g.right && d == g.forward) || (w == g.forward && d == g.right),
        ;
    }
    assert forall|f: int, r: int| 0 <= f < g.forward && 0 <= r < g.right implies cells.contains(
        #[trigger] cast_cell(shape_cell(g, anchor, f, r)),
    ) by {
        let k = shape_index(g, f, r);
        let (i, j) = match g.direction {
            GridDirection::PosZ => (r, f),
            GridDirection::NegZ => (w - 1 - r, d - 1 - f),
            GridDirection::PosX => (f, d - 1 - r),
            GridDirection::NegX => (w - 1 - f, r),
        };
        assert(0 <= i < w && 0 <= j < d);
        assert(k == i * d + j);
        assert(0 <= k < w * d && k / d == i && k % d == j) by (nonlinear_arith)
            requires
                0 <= i < w,
                0 <= j < d,
                k == i * d + j,
        ;
        assert(cells[k] == ((sx + i) as i32, (sz + j) as i32));
        lemma_shape_cell(g, anchor, f, r);
        assert(cells[k] == cast_cell(shape_cell(g, anchor, f, r)));
    }
    assert forall|k: int| 0 <= k < cells.len() implies in_shape(g, anchor, #[trigger] cells[k]) by {
        assert(w > 0 && d > 0);
        let i = k / d;
        let j = k % d;
        assert(0 <= i < w && 0 <= j < d) by (nonlinear_arith)
            requires
                0 <= k < w * d,
                d > 0,
                i == k / d,
                j == k % d,
        ;
        assert(cells[k] == ((sx + i) as i32, (sz + j) as i32));
        let (f, r) = match g.direction {
            GridDirection::PosZ => (j, i),
            GridDirection::NegZ => (d - 1 - j, w - 1 - i),
            GridDirection::PosX => (i, d - 1 - j),
            GridDirection::NegX => (w - 1 - i, j),
        };
        assert(0 <= f < g.forward && 0 <= r < g.right);
        lemma_shape_cell(g, anchor, f, r);
        assert(cells[k] == cast_cell(shape_cell(g, anchor, f, r)));
    }
}

/// Where a customer is in a visit. Timers of the eating phase are kept by
/// the caller; the decisions here only learn whether a timer ran out.
#[derive(Clone, Copy, Debug, PartialEq, Eq, Structural)]
pub enum CustomerPhase {
    Entering,
    WalkingToSeat,
    WaitingForFood,
    Eating,
    WalkingToRegister,
    WaitingForPayment,
    Leaving,
}

/// Where a staff member is in a task. Cooking and checkout timers are kept by
/// the caller.
#[derive(Clone, Copy, Debug, PartialEq, Eq, Structural)]
pub enum StaffPhase {
    Idle,
    WalkingToKitchen,
    Cooking,
    Delivering,
    WalkingToRegister,
    CheckingOut,
}

/// Tables whose order waits for a cook, oldest first.
pub struct OrderQueue {
    pub pending: std::collections::VecDeque<EntityId>,
}

/// Offset of a service slot from its appliance's anchor.
#[derive(Clone, Copy, Debug, PartialEq, Eq, Structural)]
pub struct SlotOffset {
    pub dx: i32,
    pub dz: i32,
}

/// World cell of a service slot.
#[derive(Clone, Copy, Debug, PartialEq, Eq, Structural)]
pub struct SlotPosition {
    pub x: i32,
    pub z: i32,
}

/// Half of `v`, rounded toward zero as integer division does.
pub open spec fn half_toward_zero(v: int) -> int {
    if v >= 0 {
        v / 2
    } else {
        -((-v) / 2)
    }
}

/// Half of an `i32`, rounded toward zero.
pub fn half_of(v: i32) -> (r: i32)
    ensures
        r == half_toward_zero(v as int),
{
    if v >= 0 {
        v / 2
    } else {
        let n: i64 = -(v as i64);
        let h: i64 = n / 2;
        (-h) as i32
    }
}

/// A step along the facing direction, as a whole-number pair.
pub open spec fn facing(d: GridDirection) -> (int, int) {
    let o = spec_facing_offset(d);
    (o.0 as int, o.1 as int)
}

} // verus!
