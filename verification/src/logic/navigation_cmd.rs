//! Turning a path into the movement an agent starts with.

use vstd::prelude::*;
use std::collections::VecDeque;
use crate::base::world::WorldGridMap;
use crate::logic::pathfinding::{astar_grid_path, compute_agent_path, may_enter, neighbour, opt_view, path_shape};

verus! {

/// The first segment goes to `path[1]`; the cells after it are queued. A
/// path of at most one cell gives no movement.
pub open spec fn spec_plan_route(path: Seq<(i32, i32)>) -> Option<((i32, i32), Seq<(i32, i32)>)> {
    if path.len() <= 1 {
        None
    } else {
        Some((path[1], path.skip(2)))
    }
}

/// The first step of a route planned from a found path goes to a
/// neighbouring cell that may be entered: a walkable one, or the target.
pub proof fn law_route_starts_next_door(grid: WorldGridMap, start: (i32, i32), target: (i32, i32), path: Seq<(i32, i32)>)
    requires
        path_shape(grid, start, target, true, path),
        spec_plan_route(path) is Some,
    ensures
        ({
            let next = spec_plan_route(path)->Some_0.0;
            exists|j: int| 0 <= j < 4 && neighbour(start, j) == (next.0 as int, next.1 as int) && may_enter(grid, target, true, neighbour(start, j))
        }),
{
    assert(path[0] == start);
    assert(0 < path.len() - 1);
    let k = 0int;
    assert(exists|j: int| 0 <= j < 4 && neighbour(path[k], j) == (path[k + 1].0 as int, path[k + 1].1 as int) && may_enter(grid, target, true, neighbour(path[k], j)));
}

/// The movement an agent starts from a path: the next cell and the queue of
/// the cells after it.
pub fn plan_route(path: Vec<(i32, i32)>) -> (r: Option<((i32, i32), VecDeque<(i32, i32)>)>)
    ensures
        match r {
            Some((next, rest)) => spec_plan_route(path@) == Some((next, rest@)),
            None => spec_plan_route(path@) is None,
        },
{
    if path.len() <= 1 {
        return None;
    }
    let next = path[1];
    let mut rest: VecDeque<(i32, i32)> = VecDeque::new();
    let mut i: usize = 2;
    while i < path.len()
        invariant
            2 <= i <= path@.len(),
            rest@ == path@.subrange(2, i as int),
        decreases path@.len() - i,
    {
        rest.push_back(path[i]);
        proof {
            assert(path@.subrange(2, i + 1) =~= path@.subrange(2, i as int).push(path@[i as int]));
        }
        i = i + 1;
    }
    proof {
        assert(path@.subrange(2, path@.len() as int) =~= path@.skip(2));
    }
    Some((next, rest))
}

/// Navigation of an agent at `start` to `target`: the path the search finds
/// (the target may be entered), turned into a first step and a queue.
pub fn navigate_to(start: (i32, i32), target: (i32, i32), grid_map: &WorldGridMap) -> (r: Option<((i32, i32), VecDeque<(i32, i32)>)>)
    requires
        grid_map.wf(),
    ensures
        match astar_grid_path(grid_map.width, grid_map.height, grid_map.occupancy@, start, target, true) {
            Some(p) => {
                &&& path_shape(*grid_map, start, target, true, p)
                &&& match r {
                    Some((next, rest)) => spec_plan_route(p) == Some((next, rest@)),
                    None => spec_plan_route(p) is None,
                }
            },
            None => r is None,
        },
{
    match compute_agent_path(start, target, grid_map, true) {
        Some(path) => plan_route(path),
        None => None,
    }
}

} // verus!
