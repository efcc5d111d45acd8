//! Building and demolishing appliances on the layered grid.

use vstd::prelude::*;
use crate::base::components::{EntityId, GridDirection};
use crate::sim::components::{get_footprint, sim_footprint, sim_footprint_fits, ApplianceGeometry};
use crate::sim::small_lists::{list_room, without};
use crate::sim::world::{GridLayer, GridLayers};

verus! {

/// The appliances a player can build.
#[derive(Clone, Copy, Debug, PartialEq, Eq, Structural)]
pub enum ApplianceKind {
    Table,
    Chair,
    Register,
    Stove,
}

/// Cells to the right and forward of each appliance kind.
pub open spec fn kind_shape(kind: ApplianceKind) -> (i32, i32) {
    match kind {
        ApplianceKind::Table => (1, 1),
        ApplianceKind::Chair => (1, 1),
        ApplianceKind::Register => (2, 1),
        ApplianceKind::Stove => (2, 1),
    }
}

/// Every appliance kind stands on the floor layer.
pub open spec fn kind_layer(kind: ApplianceKind) -> GridLayer {
    GridLayer::Floor
}

/// Shape of a kind placed facing `direction`.
pub open spec fn kind_geometry(kind: ApplianceKind, direction: GridDirection) -> ApplianceGeometry {
    ApplianceGeometry { right: kind_shape(kind).0, forward: kind_shape(kind).1, direction }
}

/// Shape of an appliance kind facing `direction`.
pub fn appliance_geometry(kind: ApplianceKind, direction: GridDirection) -> (r: ApplianceGeometry)
    ensures
        r == kind_geometry(kind, direction),
{
    let (right, forward): (i32, i32) = match kind {
        ApplianceKind::Table => (1, 1),
        ApplianceKind::Chair => (1, 1),
        ApplianceKind::Register => (2, 1),
        ApplianceKind::Stove => (2, 1),
    };
    ApplianceGeometry { right, forward, direction }
}

/// The layer takes the entity on these cells: all of them free on the floor;
/// the first one free on the ceiling; the first one inside the grid on the
/// surface.
pub open spec fn layer_accepts(g: GridLayers, layer: GridLayer, cells: Seq<(i32, i32)>) -> bool {
    match layer {
        GridLayer::Floor => g.floor_free(cells),
        GridLayer::Ceiling => cells.len() > 0 && g.in_bounds(cells[0].0 as int, cells[0].1 as int) && g.ceiling_at(
            cells[0].0 as int,
            cells[0].1 as int,
        ) is None,
        GridLayer::Surface => cells.len() > 0 && g.in_bounds(cells[0].0 as int, cells[0].1 as int),
    }
}

/// `after` is `before` with the entity placed on the layer as `layer_accepts` describes.
pub open spec fn placed_on(after: GridLayers, before: GridLayers, layer: GridLayer, cells: Seq<(i32, i32)>, e: EntityId) -> bool {
    match layer {
        GridLayer::Floor => {
            &&& after.same_but_floor(&before)
            &&& forall|x: int, y: int|
                #![trigger after.floor_at(x, y)]
                after.floor_at(x, y) == if cells.contains((x as i32, y as i32)) && before.in_bounds(x, y) {
                    Some(e)
                } else {
                    before.floor_at(x, y)
                }
        },
        GridLayer::Ceiling => {
            &&& after.same_but_ceiling(&before)
            &&& forall|x: int, y: int|
                #![trigger after.ceiling_at(x, y)]
                after.ceiling_at(x, y) == if x == cells[0].0 && y == cells[0].1 {
                    Some(e)
                } else {
                    before.ceiling_at(x, y)
                }
        },
        GridLayer::Surface => {
            &&& after.same_but_surface(&before)
            &&& forall|x: int, y: int|
                #![trigger after.surface_at(x, y)]
                after.surface_at(x, y) == if x == cells[0].0 && y == cells[0].1 {
                    before.surface_at(x, y).push(e)
                } else {
                    before.surface_at(x, y)
                }
        },
    }
}

/// The surface of the first cell can take one more entity.
pub open spec fn surface_room(g: GridLayers, layer: GridLayer, cells: Seq<(i32, i32)>) -> bool {
    layer == GridLayer::Surface && cells.len() > 0 ==> g.surface_at(cells[0].0 as int, cells[0].1 as int).len() < list_room()
}

/// Put `entity` on `layer` at `cells`: the whole footprint on the floor, the
/// first cell on the ceiling or surface. Nothing changes when refused.
pub fn place_on_layer(grid: &mut GridLayers, layer: GridLayer, cells: &[(i32, i32)], entity: EntityId) -> (r: bool)
    requires
        old(grid).wf(),
        surface_room(*old(grid), layer, cells@),
    ensures
        final(grid).wf(),
        r == layer_accepts(*old(grid), layer, cells@),
        r ==> placed_on(*final(grid), *old(grid), layer, cells@, entity),
        !r ==> *final(grid) == *old(grid),
{
    match layer {
        GridLayer::Floor => grid.try_place_floor(cells, entity),
        GridLayer::Ceiling => {
            if cells.len() > 0 {
                grid.try_place_ceiling(cells[0], entity)
            } else {
                false
            }
        },
        GridLayer::Surface => {
            if cells.len() > 0 {
                grid.add_surface(cells[0], entity)
            } else {
                false
            }
        },
    }
}

/// Place a new appliance `entity` of `kind` at `anchor` facing `direction`.
/// On success the result is its footprint (the cells whose layer changed);
/// when refused the grid is unchanged and the entity is dropped.
pub fn place_appliance(grid: &mut GridLayers, kind: ApplianceKind, anchor: (i32, i32), direction: GridDirection, entity: EntityId) -> (r: Option<Vec<(i32, i32)>>)
    requires
        old(grid).wf(),
        sim_footprint_fits(kind_geometry(kind, direction), anchor),
    ensures
        final(grid).wf(),
        ({
            let cells = sim_footprint(kind_geometry(kind, direction), anchor);
            &&& layer_accepts(*old(grid), kind_layer(kind), cells) ==> (r matches Some(v) && v@ == cells && placed_on(
                *final(grid),
                *old(grid),
                kind_layer(kind),
                cells,
                entity,
            ))
            &&& !layer_accepts(*old(grid), kind_layer(kind), cells) ==> r is None && *final(grid) == *old(grid)
        }),
{
    let geometry = appliance_geometry(kind, direction);
    let cells = get_footprint(&geometry, anchor);
    if place_on_layer(grid, GridLayer::Floor, cells.as_slice(), entity) {
        Some(cells)
    } else {
        None
    }
}

/// `after` is `before` with the entity taken off the layer at `cells`.
pub open spec fn removed_from(after: GridLayers, before: GridLayers, layer: GridLayer, cells: Seq<(i32, i32)>, e: EntityId) -> bool {
    match layer {
        GridLayer::Floor => {
            &&& after.same_but_floor(&before)
            &&& forall|x: int, y: int|
                #![trigger after.floor_at(x, y)]
                after.floor_at(x, y) == if cells.contains((x as i32, y as i32)) && before.in_bounds(x, y) && before.floor_at(x, y)
                    == Some(e) {
                    None
                } else {
                    before.floor_at(x, y)
                }
        },
        GridLayer::Ceiling => (cells.len() == 0 ==> after == before) && (cells.len() > 0 ==> {
            &&& after.same_but_ceiling(&before)
            &&& forall|x: int, y: int|
                #![trigger after.ceiling_at(x, y)]
                after.ceiling_at(x, y) == if x == cells[0].0 && y == cells[0].1 && before.ceiling_at(x, y) == Some(e) {
                    None
                } else {
                    before.ceiling_at(x, y)
                }
        }),
        GridLayer::Surface => (cells.len() == 0 ==> after == before) && (cells.len() > 0 ==> {
            &&& after.same_but_surface(&before)
            &&& forall|x: int, y: int|
                #![trigger after.surface_at(x, y)]
                after.surface_at(x, y) == if x == cells[0].0 && y == cells[0].1 {
                    without(before.surface_at(x, y), e)
                } else {
                    before.surface_at(x, y)
                }
        }),
    }
}

/// A built appliance: its entity, footprint and layer.
#[derive(Debug)]
pub struct PlacedAppliance {
    pub entity: EntityId,
    pub cells: Vec<(i32, i32)>,
    pub layer: GridLayer,
}

/// Demolish the first appliance whose footprint holds `click`: it leaves its
/// layer and the result is its position in `appliances` (the caller removes
/// the entity and reports the footprint as changed). With no such appliance
/// nothing changes.
pub fn handle_demolish_appliance(grid: &mut GridLayers, click: (i32, i32), appliances: &[PlacedAppliance]) -> (r: Option<usize>)
    requires
        old(grid).wf(),
    ensures
        final(grid).wf(),
        match r {
            Some(k) => {
                &&& k < appliances@.len()
                &&& appliances@[k as int].cells@.contains(click)
                &&& forall|j: int| 0 <= j < k ==> !(#[trigger] appliances@[j]).cells@.contains(click)
                &&& removed_from(*final(grid), *old(grid), appliances@[k as int].layer, appliances@[k as int].cells@, appliances@[k as int].entity)
            },
            None => {
                &&& forall|j: int| 0 <= j < appliances@.len() ==> !(#[trigger] appliances@[j]).cells@.contains(click)
                &&& *final(grid) == *old(grid)
            },
        },
{
    let mut i: usize = 0;
    while i < appliances.len()
        invariant
            0 <= i <= appliances@.len(),
            grid.wf(),
            *grid == *old(grid),
            forall|j: int| 0 <= j < i ==> !(#[trigger] appliances@[j]).cells@.contains(click),
        decreases appliances@.len() - i,
    {
        let a = &appliances[i];
        let mut found = false;
        let mut k: usize = 0;
        while k < a.cells.len()
            invariant
                0 <= k <= a.cells@.len(),
                found == a.cells@.subrange(0, k as int).contains(click),
            decreases a.cells@.len() - k,
        {
            proof {
                let sub = a.cells@.subrange(0, k + 1);
                assert(sub.drop_last() =~= a.cells@.subrange(0, k as int));
                assert(sub.contains(click) <==> (a.cells@.subrange(0, k as int).contains(click) || a.cells@[k as int] == click)) by {
                    if sub.contains(click) {
                        let w = choose|w: int| 0 <= w < sub.len() && sub[w] == click;
                        if w < k {
                            assert(a.cells@.subrange(0, k as int)[w] == click);
                        }
                    }
                    if a.cells@.subrange(0, k as int).contains(click) {
                        let w = choose|w: int| 0 <= w < k && a.cells@.subrange(0, k as int)[w] == click;
                        assert(sub[w] == click);
                    }
                    if a.cells@[k as int] == click {
                        assert(sub[k as int] == click);
                    }
                }
            }
            if a.cells[k].0 == click.0 && a.cells[k].1 == click.1 {
                found = true;
            }
            k = k + 1;
        }
        proof {
            assert(a.cells@.subrange(0, a.cells@.len() as int) =~= a.cells@);
        }
        if found {
            let cells = a.cells.as_slice();
            match a.layer {
                GridLayer::Floor => grid.remove_floor(cells, a.entity),
                GridLayer::Ceiling => {
                    if cells.len() > 0 {
                        grid.remove_ceiling(cells[0], a.entity);
                    }
                },
                GridLayer::Surface => {
                    if cells.len() > 0 {
                        grid.remove_surface(cells[0], a.entity);
                    }
                },
            }
            return Some(i);
        }
        i = i + 1;
    }
    None
}

} // verus!
