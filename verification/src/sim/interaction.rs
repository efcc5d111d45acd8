//! Interaction points of appliances: the candidate cells where agents stand
//! to use an appliance, and which appliances a change of the grid affects.

use vstd::prelude::*;
use crate::base::components::{EntityId, GridDirection};
use crate::sim::components::{facing, ApplianceGeometry};
use crate::sim::small_lists::{cells_as_slice, cells_new, cells_of, cells_push, list_room, CellList};
use crate::sim::world::{neighbor_floors, GridLayers};
use crate::sim::zone_helpers::{
    box_fits, column_offset, footprint_extent, front_cell, grown_box, lemma_filter_step, lemma_unit_mul, ring,
    ring_cells, within,
};

verus! {

/// How an appliance's interaction cells are found.
#[derive(Clone, Copy, Debug, PartialEq, Eq, Structural)]
pub enum InteractionRule {
    /// One cell in front of each width column.
    Front,
    /// Every cell within `range` of the footprint.
    AllAdjacent { range: u32 },
    /// Agents use the appliance standing on it; its cells never go stale.
    OnSite,
}

/// The cells right in front of each width column of an appliance, in column
/// order, before clipping.
pub open spec fn front_row(pos: (i32, i32), geo: ApplianceGeometry) -> Seq<(i32, i32)> {
    Seq::new(
        (if geo.right > 0 { geo.right as int } else { 0 }) as nat,
        |w: int| {
            let c = front_cell(pos, geo.direction, w, 1);
            (c.0 as i32, c.1 as i32)
        },
    )
}

/// The front row fits in `i32` and in a list.
pub open spec fn front_row_fits(pos: (i32, i32), geo: ApplianceGeometry) -> bool {
    &&& geo.right < list_room()
    &&& forall|w: int|
        0 <= w < geo.right ==> {
            let c = #[trigger] front_cell(pos, geo.direction, w, 1);
            i32::MIN <= pos.0 + column_offset(geo.direction, w).0 <= i32::MAX
                && i32::MIN <= pos.1 + column_offset(geo.direction, w).1 <= i32::MAX
                && i32::MIN <= c.0 <= i32::MAX && i32::MIN <= c.1 <= i32::MAX
        }
}

/// Candidate interaction cells in front of an appliance, one per width
/// column, keeping those inside the `bounds` grid.
pub fn compute_front_cells(pos: (i32, i32), geo: &ApplianceGeometry, bounds: (i32, i32)) -> (r: CellList)
    requires
        front_row_fits(pos, *geo),
    ensures
        cells_of(r) == front_row(pos, *geo).filter(|c: (i32, i32)| within(bounds, c)),
{
    let ghost pred = |c: (i32, i32)| within(bounds, c);
    let ghost row = front_row(pos, *geo);
    let mut out = cells_new();
    let (ox, oz) = geo.direction.facing_offset();
    let mut w: i32 = 0;
    while w < geo.right
        invariant
            0 <= w,
            w <= if geo.right > 0 { geo.right } else { 0i32 },
            (ox as int, oz as int) == facing(geo.direction),
            front_row_fits(pos, *geo),
            row == front_row(pos, *geo),
            pred == (|c: (i32, i32)| within(bounds, c)),
            cells_of(out) == row.subrange(0, w as int).filter(pred),
        decreases geo.right - w,
    {
        let (dx, dz): (i32, i32) = match geo.direction {
            GridDirection::PosZ | GridDirection::NegZ => (w, 0),
            GridDirection::PosX | GridDirection::NegX => (0, w),
        };
        proof {
            lemma_unit_mul(ox as int, 1);
            lemma_unit_mul(oz as int, 1);
            lemma_filter_step(row, w as int, pred);
            let c = front_cell(pos, geo.direction, w as int, 1);
        }
        let cx = pos.0 + dx + ox;
        let cz = pos.1 + dz + oz;
        assert(row[w as int] == (cx, cz));
        if cx >= 0 && cx < bounds.0 && cz >= 0 && cz < bounds.1 {
            cells_push(&mut out, (cx, cz));
        }
        w = w + 1;
    }
    proof {
        assert(row.subrange(0, row.len() as int) =~= row);
    }
    out
}

/// The grid clip of the grown bounding box, as `compute_adjacent_cells` scans it.
pub open spec fn clipped_box(fp: Seq<(i32, i32)>, r: int, bounds: (i32, i32)) -> (int, int, int, int) {
    let b = grown_box(fp, r);
    (
        if b.0 > 0 { b.0 } else { 0 },
        if b.1 < bounds.0 - 1 { b.1 } else { bounds.0 - 1 },
        if b.2 > 0 { b.2 } else { 0 },
        if b.3 < bounds.1 - 1 { b.3 } else { bounds.1 - 1 },
    )
}

/// The arithmetic of the grown and clipped box stays in `i32`, and its cells
/// fit in a list.
pub open spec fn clipped_fits(fp: Seq<(i32, i32)>, r: int, bounds: (i32, i32)) -> bool {
    let b = grown_box(fp, r);
    let c = clipped_box(fp, r, bounds);
    &&& i32::MIN <= b.0 && b.1 <= i32::MAX && i32::MIN <= b.2 && b.3 <= i32::MAX
    &&& i32::MIN < bounds.0 && i32::MIN < bounds.1
    &&& box_fits(c.0, c.1, c.2, c.3)
}

/// Cells within `range` of the footprint and outside it, scanned over the
/// grown bounding box clipped to the `bounds` grid, x-major.
pub fn compute_adjacent_cells(footprint: &[(i32, i32)], range: u32, bounds: (i32, i32)) -> (out: CellList)
    requires
        clipped_fits(footprint@, (range as i32) as int, bounds),
    ensures
        ({
            let c = clipped_box(footprint@, (range as i32) as int, bounds);
            cells_of(out) == ring(footprint@, (range as i32) as int, c.0, c.1, c.2, c.3)
        }),
{
    let r: i32 = range as i32;
    let (lx, hx, lz, hz) = footprint_extent(footprint);
    let r64 = r as i64;
    let a = lx as i64 - r64;
    let b = hx as i64 + r64;
    let c = lz as i64 - r64;
    let d = hz as i64 + r64;
    let bw = bounds.0 as i64 - 1;
    let bh = bounds.1 as i64 - 1;
    let lox = if a > 0 { a } else { 0 };
    let hix = if b < bw { b } else { bw };
    let loz = if c > 0 { c } else { 0 };
    let hiz = if d < bh { d } else { bh };
    ring_cells(footprint, r64, lox, hix, loz, hiz)
}

/// A change of cell `c` touches the floor entity on it and those next to it.
pub open spec fn hit(grid: GridLayers, c: (i32, i32), e: EntityId) -> bool {
    neighbor_floors(grid, c.0 as int, c.1 as int).contains(e) || grid.floor_at(c.0 as int, c.1 as int) == Some(e)
}

/// One of the first `n` changed cells touches `e`.
pub open spec fn touched_upto(grid: GridLayers, cells: Seq<(i32, i32)>, n: int, e: EntityId) -> bool {
    exists|k: int| 0 <= k < n && #[trigger] hit(grid, cells[k], e)
}

/// Every entity whose interaction cells a change of `cells` may invalidate:
/// the floor entities on and next to each changed cell.
pub open spec fn touched(grid: GridLayers, cells: Seq<(i32, i32)>, e: EntityId) -> bool {
    touched_upto(grid, cells, cells.len() as int, e)
}

/// `e` is among the first `n` entries.
pub open spec fn seen_in(s: Seq<EntityId>, n: int, e: EntityId) -> bool {
    exists|k: int| 0 <= k < n && s[k] == e
}

fn insert_new(set: &mut Vec<EntityId>, e: EntityId)
    ensures
        old(set)@.no_duplicates() ==> final(set)@.no_duplicates(),
        forall|x: EntityId| final(set)@.contains(x) <==> (old(set)@.contains(x) || x == e),
{
    let mut i: usize = 0;
    while i < set.len()
        invariant
            0 <= i <= set@.len(),
            forall|k: int| 0 <= k < i ==> set@[k] != e,
        decreases set@.len() - i,
    {
        if set[i] == e {
            assert(set@[i as int] == e);
            return;
        }
        i = i + 1;
    }
    let ghost before = set@;
    set.push(e);
    proof {
        assert forall|x: EntityId| set@.contains(x) <==> (before.contains(x) || x == e) by {
            if set@.contains(x) {
                let k = choose|k: int| 0 <= k < set@.len() && set@[k] == x;
                if k < before.len() {
                    assert(before[k] == x);
                }
            }
            if before.contains(x) {
                let k = choose|k: int| 0 <= k < before.len() && before[k] == x;
                assert(set@[k] == x);
            }
            if x == e {
                assert(set@[before.len() as int] == e);
            }
        }
        if before.no_duplicates() {
            assert forall|a: int, b: int| 0 <= a < set@.len() && 0 <= b < set@.len() && a != b implies set@[a] != set@[b] by {
                if a == before.len() {
                    assert(set@[b] == before[b]);
                } else if b == before.len() {
                    assert(set@[a] == before[a]);
                }
            }
        }
    }
}

/// The appliances to refresh after the grid changed at `cells`, each once.
pub fn affected_entities(grid: &GridLayers, cells: &[(i32, i32)]) -> (r: Vec<EntityId>)
    requires
        grid.wf(),
        forall|k: int|
            0 <= k < cells@.len() ==> i32::MIN < (#[trigger] cells@[k]).0 < i32::MAX && i32::MIN < cells@[k].1 < i32::MAX,
    ensures
        r@.no_duplicates(),
        forall|e: EntityId| r@.contains(e) <==> touched(*grid, cells@, e),
{
    let mut out: Vec<EntityId> = Vec::new();
    let mut i: usize = 0;
    while i < cells.len()
        invariant
            grid.wf(),
            forall|k: int|
                0 <= k < cells@.len() ==> i32::MIN < (#[trigger] cells@[k]).0 < i32::MAX && i32::MIN < cells@[k].1 < i32::MAX,
            0 <= i <= cells@.len(),
            out@.no_duplicates(),
            forall|e: EntityId| out@.contains(e) <==> touched_upto(*grid, cells@, i as int, e),
        decreases cells@.len() - i,
    {
        let (x, z) = cells[i];
        let ghost pre = out@;
        let ns = grid.floor_neighbors(x, z);
        let mut j: usize = 0;
        while j < ns.len()
            invariant
                0 <= j <= ns@.len(),
                out@.no_duplicates(),
                forall|e: EntityId| #[trigger] out@.contains(e) <==> (pre.contains(e) || seen_in(ns@, j as int, e)),
            decreases ns@.len() - j,
        {
            let ghost mid = out@;
            let ghost jj = j as int;
            insert_new(&mut out, ns[j]);
            j = j + 1;
            proof {
                assert forall|e: EntityId| #[trigger] out@.contains(e) <==> (pre.contains(e) || seen_in(ns@, j as int, e)) by {
                    assert(mid.contains(e) <==> (pre.contains(e) || seen_in(ns@, jj, e)));
                    assert(out@.contains(e) <==> (mid.contains(e) || e == ns@[jj]));
                    if e == ns@[jj] {
                        assert(seen_in(ns@, j as int, e));
                    }
                    if seen_in(ns@, j as int, e) {
                        let k = choose|k: int| 0 <= k < j && ns@[k] == e;
                        if k < jj {
                            assert(seen_in(ns@, jj, e));
                        }
                    }
                    if seen_in(ns@, jj, e) {
                        let k = choose|k: int| 0 <= k < jj && ns@[k] == e;
                        assert(seen_in(ns@, j as int, e));
                    }
                }
            }
        }
        let ghost out1 = out@;
        let here = grid.floor_entity_at(x, z);
        if let Some(e) = here {
            insert_new(&mut out, e);
        }
        proof {
            let c = cells@[i as int];
            assert(c == (x, z));
            assert forall|e: EntityId| out@.contains(e) <==> touched_upto(*grid, cells@, i + 1, e) by {
                assert(out1.contains(e) <==> (pre.contains(e) || seen_in(ns@, ns@.len() as int, e)));
                assert(out@.contains(e) <==> (out1.contains(e) || here == Some(e)));
                assert(pre.contains(e) <==> touched_upto(*grid, cells@, i as int, e));
                assert(seen_in(ns@, ns@.len() as int, e) <==> ns@.contains(e)) by {
                    if ns@.contains(e) {
                        let k = choose|k: int| 0 <= k < ns@.len() && ns@[k] == e;
                    }
                }
                if hit(*grid, c, e) {
                    assert(touched_upto(*grid, cells@, i + 1, e));
                }
                if touched_upto(*grid, cells@, i + 1, e) {
                    let k = choose|k: int| 0 <= k < i + 1 && #[trigger] hit(*grid, cells@[k], e);
                    if k < i {
                        assert(touched_upto(*grid, cells@, i as int, e));
                    }
                }
                if touched_upto(*grid, cells@, i as int, e) {
                    let k = choose|k: int| 0 <= k < i && #[trigger] hit(*grid, cells@[k], e);
                    assert(touched_upto(*grid, cells@, i + 1, e));
                }
            }
        }
        i = i + 1;
    }
    out
}

/// The candidate cells of an appliance under its rule, keeping those without
/// a floor entity; `None` for appliances used on site, which keep theirs.
pub open spec fn free_of_floor(grid: GridLayers, cands: Seq<(i32, i32)>) -> Seq<(i32, i32)> {
    cands.filter(|c: (i32, i32)| grid.floor_at(c.0 as int, c.1 as int) is None)
}

/// New interaction cells of an affected appliance: the candidates of its
/// rule that hold no floor entity. `None` means the cells are kept.
pub fn refresh_interaction_points_on_grid_change(
    grid: &GridLayers,
    rule: InteractionRule,
    pos: (i32, i32),
    geo: &ApplianceGeometry,
    footprint: &[(i32, i32)],
) -> (r: Option<Vec<(i32, i32)>>)
    requires
        grid.wf(),
        rule == InteractionRule::Front ==> front_row_fits(pos, *geo),
        rule matches InteractionRule::AllAdjacent { range } ==> clipped_fits(footprint@, (range as i32) as int, (grid.width, grid.height)),
    ensures
        rule == InteractionRule::OnSite ==> r is None,
        rule == InteractionRule::Front ==> (r matches Some(v) && v@ == free_of_floor(
            *grid,
            front_row(pos, *geo).filter(|c: (i32, i32)| within((grid.width, grid.height), c)),
        )),
        rule matches InteractionRule::AllAdjacent { range } ==> (r matches Some(v) && ({
            let c = clipped_box(footprint@, (range as i32) as int, (grid.width, grid.height));
            v@ == free_of_floor(*grid, ring(footprint@, (range as i32) as int, c.0, c.1, c.2, c.3))
        })),
{
    let bounds = (grid.width, grid.height);
    let cands = match rule {
        InteractionRule::Front => compute_front_cells(pos, geo, bounds),
        InteractionRule::AllAdjacent { range } => compute_adjacent_cells(footprint, range, bounds),
        InteractionRule::OnSite => {
            return None;
        },
    };
    let s = cells_as_slice(&cands);
    let ghost pred = |c: (i32, i32)| grid.floor_at(c.0 as int, c.1 as int) is None;
    let mut out: Vec<(i32, i32)> = Vec::new();
    let mut i: usize = 0;
    while i < s.len()
        invariant
            grid.wf(),
            0 <= i <= s@.len(),
            pred == (|c: (i32, i32)| grid.floor_at(c.0 as int, c.1 as int) is None),
            out@ == s@.subrange(0, i as int).filter(pred),
        decreases s@.len() - i,
    {
        proof {
            lemma_filter_step(s@, i as int, pred);
        }
        let (x, z) = s[i];
        if grid.floor_entity_at(x, z).is_none() {
            out.push((x, z));
        }
        i = i + 1;
    }
    proof {
        assert(s@.subrange(0, s@.len() as int) =~= s@);
    }
    Some(out)
}

} // verus!
