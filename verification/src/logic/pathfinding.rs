//! Shortest paths on the occupancy map, found by the `pathfinding` crate's A*.

use vstd::prelude::*;
use pathfinding::prelude::astar;
use crate::base::world::{GridOccupancy, WorldGridMap};

verus! {

/// The four neighbours of a cell, in the order +x, -x, +z, -z, as whole numbers.
pub open spec fn neighbour(p: (i32, i32), k: int) -> (int, int) {
    if k == 0 {
        (p.0 + 1, p.1 as int)
    } else if k == 1 {
        (p.0 - 1, p.1 as int)
    } else if k == 2 {
        (p.0 as int, p.1 + 1)
    } else {
        (p.0 as int, p.1 - 1)
    }
}

/// A step may end on `n`: a walkable cell, or the goal when it may be entered.
pub open spec fn may_enter(grid: WorldGridMap, goal: (i32, i32), walkable_goal: bool, n: (int, int)) -> bool {
    grid.spec_walkable(n.0, n.1) || (walkable_goal && n == (goal.0 as int, goal.1 as int))
}

/// The successors of `p` with their unit costs, in neighbour order.
pub open spec fn successors(grid: WorldGridMap, goal: (i32, i32), walkable_goal: bool, p: (i32, i32)) -> Seq<((i32, i32), i64)> {
    successors_from(grid, goal, walkable_goal, p, 0)
}

pub open spec fn successors_from(grid: WorldGridMap, goal: (i32, i32), walkable_goal: bool, p: (i32, i32), k: int) -> Seq<
    ((i32, i32), i64),
>
    decreases 4 - k,
{
    if k >= 4 || k < 0 {
        Seq::empty()
    } else {
        let n = neighbour(p, k);
        let rest = successors_from(grid, goal, walkable_goal, p, k + 1);
        if may_enter(grid, goal, walkable_goal, n) {
            seq![((n.0 as i32, n.1 as i32), 1i64)] + rest
        } else {
            rest
        }
    }
}

/// Walkable neighbours of `p` (and the goal when `walkable_goal`), each at cost 1.
pub fn grid_successors(grid: &WorldGridMap, goal: (i32, i32), walkable_goal: bool, p: (i32, i32)) -> (r: Vec<((i32, i32), i64)>)
    requires
        grid.wf(),
    ensures
        r@ == successors(*grid, goal, walkable_goal, p),
{
    let dirs: [(i64, i64); 4] = [(1, 0), (-1, 0), (0, 1), (0, -1)];
    let mut picked: Vec<((i32, i32), i64)> = Vec::new();
    let mut k: usize = 4;
    while k > 0
        invariant
            0 <= k <= 4,
            grid.wf(),
            dirs@ == seq![(1i64, 0i64), (-1i64, 0i64), (0i64, 1i64), (0i64, -1i64)],
            picked@ == successors_from(*grid, goal, walkable_goal, p, k as int).reverse(),
        decreases k,
    {
        k = k - 1;
        let (dx, dz) = dirs[k];
        let nx: i64 = p.0 as i64 + dx;
        let nz: i64 = p.1 as i64 + dz;
        let ghost n = neighbour(p, k as int);
        assert(nx == n.0 && nz == n.1);
        let ghost rest = successors_from(*grid, goal, walkable_goal, p, k + 1);
        if i32::MIN as i64 <= nx && nx <= i32::MAX as i64 && i32::MIN as i64 <= nz && nz <= i32::MAX as i64 {
            let c = (nx as i32, nz as i32);
            let enter = grid.is_walkable(c.0, c.1) || (walkable_goal && c.0 == goal.0 && c.1 == goal.1);
            if enter {
                picked.push((c, 1));
                proof {
                    assert((seq![(c, 1i64)] + rest).reverse() =~= rest.reverse().push((c, 1i64)));
                }
            }
        } else {
            assert(!grid.in_bounds(n.0, n.1));
        }
    }
    let mut out: Vec<((i32, i32), i64)> = Vec::new();
    let mut i: usize = picked.len();
    while i > 0
        invariant
            0 <= i <= picked@.len(),
            out@ == picked@.subrange(i as int, picked@.len() as int).reverse(),
        decreases i,
    {
        i = i - 1;
        out.push(picked[i]);
        proof {
            assert(picked@.subrange(i as int, picked@.len() as int).reverse() =~= picked@.subrange(
                i + 1,
                picked@.len() as int,
            ).reverse().push(picked@[i as int]));
        }
    }
    proof {
        assert(picked@.subrange(0, picked@.len() as int) =~= picked@);
        assert(picked@.reverse().reverse() =~= picked@);
    }
    out
}

/// Estimate of the remaining cost: the Manhattan distance to the goal, which
/// never exceeds the number of unit steps still needed.
pub fn goal_heuristic(goal: (i32, i32), p: (i32, i32)) -> (r: i64)
    ensures
        r == (if goal.0 >= p.0 { goal.0 - p.0 } else { p.0 - goal.0 }) + (if goal.1 >= p.1 {
            goal.1 - p.1
        } else {
            p.1 - goal.1
        }),
{
    let dx: i64 = if goal.0 >= p.0 { goal.0 as i64 - p.0 as i64 } else { p.0 as i64 - goal.0 as i64 };
    let dz: i64 = if goal.1 >= p.1 { goal.1 as i64 - p.1 as i64 } else { p.1 as i64 - goal.1 as i64 };
    dx + dz
}

/// The search has reached the goal.
pub fn reached(goal: (i32, i32), p: (i32, i32)) -> (r: bool)
    ensures
        r == (p == goal),
{
    p.0 == goal.0 && p.1 == goal.1
}

/// What `astar` returns on the occupancy map: the grid's size and cells,
/// start, goal and whether the goal may be entered determine it.
pub uninterp spec fn astar_grid_path(
    width: i32,
    height: i32,
    occupancy: Seq<GridOccupancy>,
    start: (i32, i32),
    goal: (i32, i32),
    walkable_goal: bool,
) -> Option<Seq<(i32, i32)>>;

/// Each step of the path goes to a neighbour that may be entered.
pub open spec fn steps_ok(grid: WorldGridMap, goal: (i32, i32), walkable_goal: bool, path: Seq<(i32, i32)>) -> bool {
    forall|k: int|
        0 <= k < path.len() - 1 ==> exists|j: int|
            0 <= j < 4 && neighbour(#[trigger] path[k], j) == (path[k + 1].0 as int, path[k + 1].1 as int) && may_enter(
                grid,
                goal,
                walkable_goal,
                neighbour(path[k], j),
            )
}

/// What the documentation of `astar` promises of a returned path: it starts
/// at the start, ends at a node where the search succeeds (the goal), moves
/// only along successors, and never holds a node twice.
pub open spec fn path_shape(grid: WorldGridMap, start: (i32, i32), goal: (i32, i32), walkable_goal: bool, path: Seq<(i32, i32)>) -> bool {
    &&& path.len() >= 1
    &&& path[0] == start
    &&& path.last() == goal
    &&& path.no_duplicates()
    &&& steps_ok(grid, goal, walkable_goal, path)
}

/// The option of a vector, by its view.
pub open spec fn opt_view(r: Option<Vec<(i32, i32)>>) -> Option<Seq<(i32, i32)>> {
    match r {
        Some(v) => Some(v@),
        None => None,
    }
}

/// `pathfinding::directed::astar::astar` from `start` to `goal` with unit
/// steps to the walkable neighbours (and to the goal when `walkable_goal`),
/// the Manhattan distance as heuristic and reaching `goal` as success. The
/// contract claims the result is the named `astar_grid_path` of the grid and
/// arguments, and, of a returned path, what the crate documents: it starts
/// at `start`, ends at `goal`, steps only to successors and holds no node
/// twice; and, the heuristic never exceeding the remaining cost, that it is a
/// shortest such path, and that `None` comes back only when there is none.
/// Which of several shortest paths comes back is not stated.
#[verifier::external_body]
fn astar_on_grid(grid: &WorldGridMap, start: (i32, i32), goal: (i32, i32), walkable_goal: bool) -> (r: Option<Vec<(i32, i32)>>)
    requires
        grid.wf(),
    ensures
        opt_view(r) == astar_grid_path(grid.width, grid.height, grid.occupancy@, start, goal, walkable_goal),
        r matches Some(p) ==> path_shape(*grid, start, goal, walkable_goal, p@),
        r matches Some(p) ==> forall|q: Seq<(i32, i32)>|
            #[trigger] path_shape(*grid, start, goal, walkable_goal, q) ==> p@.len() <= q.len(),
        r is None <==> forall|q: Seq<(i32, i32)>| !#[trigger] path_shape(*grid, start, goal, walkable_goal, q),
{
    astar(
        &start,
        |p: &(i32, i32)| grid_successors(grid, goal, walkable_goal, *p),
        |p: &(i32, i32)| goal_heuristic(goal, *p),
        |p: &(i32, i32)| reached(goal, *p),
    ).map(|found| found.0)
}

/// A shortest 4-connected path from `start` to `goal` over walkable cells,
/// the goal itself admitted when `walkable_goal`; `None` when there is none.
pub fn compute_agent_path(start: (i32, i32), goal: (i32, i32), grid_map: &WorldGridMap, walkable_goal: bool) -> (r: Option<
    Vec<(i32, i32)>,
>)
    requires
        grid_map.wf(),
    ensures
        opt_view(r) == astar_grid_path(grid_map.width, grid_map.height, grid_map.occupancy@, start, goal, walkable_goal),
        r matches Some(p) ==> path_shape(*grid_map, start, goal, walkable_goal, p@),
        r matches Some(p) ==> forall|q: Seq<(i32, i32)>|
            #[trigger] path_shape(*grid_map, start, goal, walkable_goal, q) ==> p@.len() <= q.len(),
        r is None <==> forall|q: Seq<(i32, i32)>| !#[trigger] path_shape(*grid_map, start, goal, walkable_goal, q),
{
    astar_on_grid(grid_map, start, goal, walkable_goal)
}

} // verus!
