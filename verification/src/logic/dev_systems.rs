//! Developer tools on the occupancy map: placing and demolishing appliances,
//! spawning agents, and binding chairs to the tables they face.

use vstd::prelude::*;
use crate::base::components::{footprint_fits, get_footprint, spec_facing_offset, spec_footprint, ApplianceGeometry, GridDirection};
use crate::base::world::{filled, GridOccupancy, WorldGridMap};

verus! {

fn contains_cell(cells: &Vec<(i32, i32)>, c: (i32, i32)) -> (r: bool)
    ensures
        r == cells@.contains(c),
{
    let mut i: usize = 0;
    while i < cells.len()
        invariant
            0 <= i <= cells@.len(),
            forall|k: int| 0 <= k < i ==> cells@[k] != c,
        decreases cells@.len() - i,
    {
        if cells[i].0 == c.0 && cells[i].1 == c.1 {
            assert(cells@[i as int] == c);
            return true;
        }
        i = i + 1;
    }
    false
}

/// Place an appliance of shape `geometry` at `anchor` when its whole
/// footprint lies in the grid and is empty: the footprint becomes occupied
/// and is returned. Otherwise nothing changes.
pub fn try_place(grid_map: &mut WorldGridMap, anchor: (i32, i32), geometry: ApplianceGeometry) -> (r: Option<Vec<(i32, i32)>>)
    requires
        old(grid_map).wf(),
        footprint_fits(geometry, anchor),
    ensures
        final(grid_map).wf(),
        ({
            let fp = spec_footprint(geometry, anchor);
            &&& old(grid_map).spec_area_empty(fp) ==> (r matches Some(v) && v@ == fp && filled(
                *final(grid_map),
                *old(grid_map),
                fp,
                GridOccupancy::Occupied,
            ))
            &&& !old(grid_map).spec_area_empty(fp) ==> r is None && *final(grid_map) == *old(grid_map)
        }),
{
    let footprint = get_footprint(&geometry, anchor);
    if !grid_map.is_area_empty(footprint.as_slice()) {
        return None;
    }
    grid_map.fill_area(footprint.as_slice(), GridOccupancy::Occupied);
    Some(footprint)
}

/// A table covers 2 x 1 cells.
pub fn handle_place_table(grid_map: &mut WorldGridMap, anchor: (i32, i32), direction: GridDirection) -> (r: Option<Vec<(i32, i32)>>)
    requires
        old(grid_map).wf(),
        footprint_fits(ApplianceGeometry { base_width: 2, base_depth: 1, direction }, anchor),
    ensures
        final(grid_map).wf(),
        ({
            let fp = spec_footprint(ApplianceGeometry { base_width: 2, base_depth: 1, direction }, anchor);
            &&& old(grid_map).spec_area_empty(fp) ==> (r matches Some(v) && v@ == fp && filled(*final(grid_map), *old(grid_map), fp, GridOccupancy::Occupied))
            &&& !old(grid_map).spec_area_empty(fp) ==> r is None && *final(grid_map) == *old(grid_map)
        }),
{
    try_place(grid_map, anchor, ApplianceGeometry { base_width: 2, base_depth: 1, direction })
}

/// A chair covers one cell.
pub fn handle_place_chair(grid_map: &mut WorldGridMap, anchor: (i32, i32), direction: GridDirection) -> (r: Option<Vec<(i32, i32)>>)
    requires
        old(grid_map).wf(),
        footprint_fits(ApplianceGeometry { base_width: 1, base_depth: 1, direction }, anchor),
    ensures
        final(grid_map).wf(),
        ({
            let fp = spec_footprint(ApplianceGeometry { base_width: 1, base_depth: 1, direction }, anchor);
            &&& old(grid_map).spec_area_empty(fp) ==> (r matches Some(v) && v@ == fp && filled(*final(grid_map), *old(grid_map), fp, GridOccupancy::Occupied))
            &&& !old(grid_map).spec_area_empty(fp) ==> r is None && *final(grid_map) == *old(grid_map)
        }),
{
    try_place(grid_map, anchor, ApplianceGeometry { base_width: 1, base_depth: 1, direction })
}

/// A register covers 2 x 1 cells.
pub fn handle_place_register(grid_map: &mut WorldGridMap, anchor: (i32, i32), direction: GridDirection) -> (r: Option<Vec<(i32, i32)>>)
    requires
        old(grid_map).wf(),
        footprint_fits(ApplianceGeometry { base_width: 2, base_depth: 1, direction }, anchor),
    ensures
        final(grid_map).wf(),
        ({
            let fp = spec_footprint(ApplianceGeometry { base_width: 2, base_depth: 1, direction }, anchor);
            &&& old(grid_map).spec_area_empty(fp) ==> (r matches Some(v) && v@ == fp && filled(*final(grid_map), *old(grid_map), fp, GridOccupancy::Occupied))
            &&& !old(grid_map).spec_area_empty(fp) ==> r is None && *final(grid_map) == *old(grid_map)
        }),
{
    try_place(grid_map, anchor, ApplianceGeometry { base_width: 2, base_depth: 1, direction })
}

/// A stove covers 2 x 1 cells.
pub fn handle_place_stove(grid_map: &mut WorldGridMap, anchor: (i32, i32), direction: GridDirection) -> (r: Option<Vec<(i32, i32)>>)
    requires
        old(grid_map).wf(),
        footprint_fits(ApplianceGeometry { base_width: 2, base_depth: 1, direction }, anchor),
    ensures
        final(grid_map).wf(),
        ({
            let fp = spec_footprint(ApplianceGeometry { base_width: 2, base_depth: 1, direction }, anchor);
            &&& old(grid_map).spec_area_empty(fp) ==> (r matches Some(v) && v@ == fp && filled(*final(grid_map), *old(grid_map), fp, GridOccupancy::Occupied))
            &&& !old(grid_map).spec_area_empty(fp) ==> r is None && *final(grid_map) == *old(grid_map)
        }),
{
    try_place(grid_map, anchor, ApplianceGeometry { base_width: 2, base_depth: 1, direction })
}

/// Every appliance's footprint can be computed.
pub open spec fn all_fit(appliances: Seq<((i32, i32), ApplianceGeometry)>) -> bool {
    forall|k: int| 0 <= k < appliances.len() ==> footprint_fits((#[trigger] appliances[k]).1, appliances[k].0)
}

/// The appliance's footprint holds `c`.
pub open spec fn covers(a: ((i32, i32), ApplianceGeometry), c: (i32, i32)) -> bool {
    spec_footprint(a.1, a.0).contains(c)
}

/// Position of the first appliance covering `c` (each given by anchor and
/// shape); `None` when none does.
pub fn first_covering(appliances: &[((i32, i32), ApplianceGeometry)], c: (i32, i32)) -> (r: Option<usize>)
    requires
        all_fit(appliances@),
    ensures
        match r {
            Some(k) => k < appliances@.len() && covers(appliances@[k as int], c) && forall|j: int|
                0 <= j < k ==> !covers(#[trigger] appliances@[j], c),
            None => forall|j: int| 0 <= j < appliances@.len() ==> !covers(#[trigger] appliances@[j], c),
        },
{
    let mut i: usize = 0;
    while i < appliances.len()
        invariant
            0 <= i <= appliances@.len(),
            all_fit(appliances@),
            forall|j: int| 0 <= j < i ==> !covers(#[trigger] appliances@[j], c),
        decreases appliances@.len() - i,
    {
        let (pos, geo) = appliances[i];
        assert(footprint_fits(appliances@[i as int].1, appliances@[i as int].0));
        let fp = get_footprint(&geo, pos);
        if contains_cell(&fp, c) {
            return Some(i);
        }
        i = i + 1;
    }
    None
}

/// Demolish the first appliance whose footprint holds `click`: its footprint
/// becomes empty and the result is its position (the caller removes it).
pub fn handle_demolish_appliance(grid_map: &mut WorldGridMap, click: (i32, i32), appliances: &[((i32, i32), ApplianceGeometry)]) -> (r: Option<usize>)
    requires
        old(grid_map).wf(),
        all_fit(appliances@),
    ensures
        final(grid_map).wf(),
        match r {
            Some(k) => {
                &&& k < appliances@.len()
                &&& covers(appliances@[k as int], click)
                &&& forall|j: int| 0 <= j < k ==> !covers(#[trigger] appliances@[j], click)
                &&& filled(*final(grid_map), *old(grid_map), spec_footprint(appliances@[k as int].1, appliances@[k as int].0), GridOccupancy::Empty)
            },
            None => {
                &&& forall|j: int| 0 <= j < appliances@.len() ==> !covers(#[trigger] appliances@[j], click)
                &&& *final(grid_map) == *old(grid_map)
            },
        },
{
    match first_covering(appliances, click) {
        Some(k) => {
            let (pos, geo) = appliances[k];
            assert(footprint_fits(appliances@[k as int].1, appliances@[k as int].0));
            let fp = get_footprint(&geo, pos);
            grid_map.clear_area(fp.as_slice());
            Some(k)
        },
        None => None,
    }
}

/// A staff member may be spawned only on a walkable cell.
pub fn handle_spawn_staff_requests(grid_map: &WorldGridMap, x: i32, z: i32) -> (r: bool)
    requires
        grid_map.wf(),
    ensures
        r == grid_map.spec_walkable(x as int, z as int),
{
    grid_map.is_walkable(x, z)
}

/// The cell a chair faces.
pub open spec fn faced_cell(pos: (i32, i32), dir: GridDirection) -> (i32, i32) {
    let o = spec_facing_offset(dir);
    ((pos.0 + o.0) as i32, (pos.1 + o.1) as i32)
}

/// An unbound chair at `pos` facing `dir` joins the first table whose
/// footprint holds the cell it faces; the result is that table's position.
pub fn bind_new_chairs_system(pos: (i32, i32), dir: GridDirection, tables: &[((i32, i32), ApplianceGeometry)]) -> (r: Option<usize>)
    requires
        all_fit(tables@),
        i32::MIN < pos.0 < i32::MAX,
        i32::MIN < pos.1 < i32::MAX,
    ensures
        match r {
            Some(k) => k < tables@.len() && covers(tables@[k as int], faced_cell(pos, dir)) && forall|j: int|
                0 <= j < k ==> !covers(#[trigger] tables@[j], faced_cell(pos, dir)),
            None => forall|j: int| 0 <= j < tables@.len() ==> !covers(#[trigger] tables@[j], faced_cell(pos, dir)),
        },
{
    let (dx, dz) = dir.facing_offset();
    let adj = (pos.0 + dx, pos.1 + dz);
    first_covering(tables, adj)
}

} // verus!
