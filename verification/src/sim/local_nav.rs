//! One step of local navigation: a greedy fan of candidate cells around the
//! direct step toward the target, reserved on the grid, with a short
//! breadth-first search as fallback.

use vstd::prelude::*;
use crate::base::components::EntityId;
use crate::sim::select::{manhattan, manhattan_distance};
use crate::sim::world::{spec_try_reserve, CellIntent, GridLayers, ReservationDuration, ReservationEntry, ReserveResult};

verus! {

/// Result of a local navigation step.
#[derive(Clone, Copy, Debug, PartialEq, Eq)]
pub enum StepResult {
    /// Move to this cell (its reservation succeeded, or it is the target).
    Advance { to: (i32, i32) },
    /// Every attempt was blocked: wait.
    Wait,
    /// Blocked for too long: plan a new path.
    Replan,
}

pub open spec fn sign(v: int) -> int {
    if v > 0 {
        1
    } else if v < 0 {
        -1
    } else {
        0
    }
}

pub open spec fn abs(v: int) -> int {
    if v < 0 {
        -v
    } else {
        v
    }
}

/// Manhattan step from `from` toward `to`, each component in {-1, 0, 1};
/// when both axes differ, the axis with the larger gap wins, x on a tie.
pub open spec fn spec_direction_toward(from: (i32, i32), to: (i32, i32)) -> (int, int) {
    let ex = to.0 - from.0;
    let ez = to.1 - from.1;
    let dx = sign(ex);
    let dz = sign(ez);
    if dx != 0 && dz != 0 {
        if abs(ex) >= abs(ez) {
            (dx, 0)
        } else {
            (0, dz)
        }
    } else {
        (dx, dz)
    }
}

/// Away from the target, the step toward it is one of the four unit steps
/// and brings the agent one cell closer.
pub proof fn law_step_gets_closer(from: (i32, i32), to: (i32, i32))
    requires
        from != to,
        step_fits(from),
    ensures
        abs(spec_direction_toward(from, to).0) + abs(spec_direction_toward(from, to).1) == 1,
        manhattan(
            ((from.0 + spec_direction_toward(from, to).0) as i32, (from.1 + spec_direction_toward(from, to).1) as i32),
            to,
        ) == manhattan(from, to) - 1,
{
}

/// Unit step from `from` toward `to`.
pub fn direction_toward(from: (i32, i32), to: (i32, i32)) -> (r: (i32, i32))
    ensures
        (r.0 as int, r.1 as int) == spec_direction_toward(from, to),
{
    let ex: i64 = to.0 as i64 - from.0 as i64;
    let ez: i64 = to.1 as i64 - from.1 as i64;
    let dx: i32 = if ex > 0 { 1 } else if ex < 0 { -1 } else { 0 };
    let dz: i32 = if ez > 0 { 1 } else if ez < 0 { -1 } else { 0 };
    if dx != 0 && dz != 0 {
        let ax: i64 = if ex < 0 { -ex } else { ex };
        let az: i64 = if ez < 0 { -ez } else { ez };
        if ax >= az {
            (dx, 0)
        } else {
            (0, dz)
        }
    } else {
        (dx, dz)
    }
}

/// Neighbour `j` of a cell, in the order +x, -x, +z, -z.
pub open spec fn neighbour_of(c: (i32, i32), j: int) -> (int, int) {
    if j == 0 {
        (c.0 + 1, c.1 as int)
    } else if j == 1 {
        (c.0 - 1, c.1 as int)
    } else if j == 2 {
        (c.0 as int, c.1 + 1)
    } else {
        (c.0 as int, c.1 - 1)
    }
}

/// Neighbour `j` of a cell lies inside the `i32` coordinates.
pub open spec fn neighbour_fits(c: (i32, i32), j: int) -> bool {
    let n = neighbour_of(c, j);
    i32::MIN <= n.0 <= i32::MAX && i32::MIN <= n.1 <= i32::MAX
}

/// Neighbour `j` of a cell as a cell.
pub open spec fn neighbour_cell(c: (i32, i32), j: int) -> (i32, i32) {
    (neighbour_of(c, j).0 as i32, neighbour_of(c, j).1 as i32)
}

/// `c` is reached from `start` in at most `n` unit steps whose cells `entity`
/// may walk on (the start itself need not be walkable).
pub open spec fn reach_within(g: GridLayers, entity: EntityId, start: (i32, i32), n: nat, c: (i32, i32)) -> bool
    decreases n,
{
    c == start || (n > 0 && (reach_within(g, entity, start, (n - 1) as nat, c) || (g.spec_walkable_for(
        c.0 as int,
        c.1 as int,
        entity,
    ) && exists|p: (i32, i32), j: int|
        0 <= j < 4 && neighbour_fits(p, j) && reach_within(g, entity, start, (n - 1) as nat, p) && #[trigger] neighbour_cell(
            p,
            j,
        ) == c)))
}

/// Every neighbour of `c` inside the coordinates occurs in `vis`.
pub open spec fn all_neighbours_in(vis: Seq<(i32, i32)>, c: (i32, i32)) -> bool {
    forall|j: int| 0 <= j < 4 && neighbour_fits(c, j) ==> vis.contains(#[trigger] neighbour_cell(c, j))
}

pub proof fn lemma_reach_monotone(g: GridLayers, entity: EntityId, start: (i32, i32), a: nat, b: nat, c: (i32, i32))
    requires
        a <= b,
        reach_within(g, entity, start, a, c),
    ensures
        reach_within(g, entity, start, b, c),
    decreases b,
{
    if a < b {
        lemma_reach_monotone(g, entity, start, a, (b - 1) as nat, c);
    }
}

pub proof fn lemma_reach_walkable(g: GridLayers, entity: EntityId, start: (i32, i32), n: nat, c: (i32, i32))
    requires
        reach_within(g, entity, start, n, c),
        c != start,
    ensures
        g.spec_walkable_for(c.0 as int, c.1 as int, entity),
    decreases n,
{
    if n > 0 && reach_within(g, entity, start, (n - 1) as nat, c) {
        lemma_reach_walkable(g, entity, start, (n - 1) as nat, c);
    }
}

proof fn lemma_neighbours_grow(vis: Seq<(i32, i32)>, more: Seq<(i32, i32)>, c: (i32, i32))
    requires
        all_neighbours_in(vis, c),
        forall|x: (i32, i32)| vis.contains(x) ==> #[trigger] more.contains(x),
    ensures
        all_neighbours_in(more, c),
{
    assert forall|j: int| 0 <= j < 4 && neighbour_fits(c, j) implies more.contains(#[trigger] neighbour_cell(c, j)) by {
        assert(vis.contains(neighbour_cell(c, j)));
    }
}

proof fn lemma_push_contains(s: Seq<(i32, i32)>, v: (i32, i32))
    ensures
        s.push(v).contains(v),
        forall|x: (i32, i32)| #[trigger] s.push(v).contains(x) <==> (s.contains(x) || x == v),
{
    assert(s.push(v)[s.len() as int] == v);
    assert forall|x: (i32, i32)| #[trigger] s.push(v).contains(x) <==> (s.contains(x) || x == v) by {
        if s.contains(x) {
            let i = choose|i: int| 0 <= i < s.len() && s[i] == x;
            assert(s.push(v)[i] == x);
        }
        if s.push(v).contains(x) {
            let i = choose|i: int| 0 <= i < s.len() + 1 && s.push(v)[i] == x;
            if i < s.len() {
                assert(s[i] == x);
            }
        }
    }
}

/// Whether `v` occurs in `s`.
fn contains_cell(s: &Vec<(i32, i32)>, v: (i32, i32)) -> (r: bool)
    ensures
        r == s@.contains(v),
{
    let mut j: usize = 0;
    while j < s.len()
        invariant
            0 <= j <= s@.len(),
            forall|i: int| 0 <= i < j ==> s@[i] != v,
        decreases s@.len() - j,
    {
        if s[j].0 == v.0 && s[j].1 == v.1 {
            assert(s@[j as int] == v);
            return true;
        }
        j = j + 1;
    }
    false
}

/// Mark `n` seen. A walkable cell seen for the first time is either closer
/// to the target than `start_dist` (the result is `true`) or joins `next`.
fn visit(
    n: (i32, i32),
    target: (i32, i32),
    start_dist: u64,
    grid: &GridLayers,
    entity: EntityId,
    visited: &mut Vec<(i32, i32)>,
    next: &mut Vec<(i32, i32)>,
) -> (found: bool)
    requires
        grid.wf(),
    ensures
        ({
            let fresh = !old(visited)@.contains(n);
            let open = grid.spec_walkable_for(n.0 as int, n.1 as int, entity);
            &&& found == (fresh && open && manhattan(n, target) < start_dist)
            &&& final(visited)@ == if fresh {
                old(visited)@.push(n)
            } else {
                old(visited)@
            }
            &&& final(next)@ == if fresh && open && !found {
                old(next)@.push(n)
            } else {
                old(next)@
            }
        }),
{
    if contains_cell(visited, n) {
        return false;
    }
    visited.push(n);
    if !grid.is_walkable_for(n.0, n.1, entity) {
        return false;
    }
    if manhattan_distance(n, target) < start_dist {
        return true;
    }
    next.push(n);
    false
}

/// What the breadth-first search of `bfs_closer` holds: the cells seen, the
/// cells of a level (the one being built during a round, the current one
/// between rounds), and the closer cell found, if any.
pub struct SearchState {
    pub seen: Seq<(i32, i32)>,
    pub level: Seq<(i32, i32)>,
    pub found: Option<(i32, i32)>,
}

/// The cells `entity` may walk on.
pub open spec fn walk_pred(g: GridLayers, entity: EntityId) -> spec_fn((i32, i32)) -> bool {
    |c: (i32, i32)| g.spec_walkable_for(c.0 as int, c.1 as int, entity)
}

/// Seeing cell `n`: a cell seen before changes nothing; a new one is marked
/// seen, and when walkable it is the cell found if closer to the target than
/// `dist`, else it joins the level.
pub open spec fn see(open: spec_fn((i32, i32)) -> bool, dist: int, target: (i32, i32), st: SearchState, n: (i32, i32)) -> SearchState {
    if st.seen.contains(n) {
        st
    } else if !open(n) {
        SearchState { seen: st.seen.push(n), level: st.level, found: st.found }
    } else if manhattan(n, target) < dist {
        SearchState { seen: st.seen.push(n), level: st.level, found: Some(n) }
    } else {
        SearchState { seen: st.seen.push(n), level: st.level.push(n), found: st.found }
    }
}

/// Seeing the neighbours `j..4` of `cell` in the order +x, -x, +z, -z, up
/// to the first cell found.
pub open spec fn see_neighbours(
    open: spec_fn((i32, i32)) -> bool,
    dist: int,
    target: (i32, i32),
    st: SearchState,
    cell: (i32, i32),
    j: int,
) -> SearchState
    decreases 4 - j,
{
    if j >= 4 || st.found is Some {
        st
    } else {
        let next = if neighbour_fits(cell, j) {
            see(open, dist, target, st, neighbour_cell(cell, j))
        } else {
            st
        };
        see_neighbours(open, dist, target, next, cell, j + 1)
    }
}

/// Seeing the neighbours of the level's cells from position `i` on, in
/// order, up to the first cell found.
pub open spec fn see_level(
    open: spec_fn((i32, i32)) -> bool,
    dist: int,
    target: (i32, i32),
    st: SearchState,
    level: Seq<(i32, i32)>,
    i: int,
) -> SearchState
    decreases level.len() - i,
{
    if i >= level.len() || st.found is Some {
        st
    } else {
        see_level(open, dist, target, see_neighbours(open, dist, target, st, level[i], 0), level, i + 1)
    }
}

/// The search after `n` rounds: round zero has seen the start, which makes
/// up the first level; each round sees the neighbours of the level's cells
/// and builds the next level from the new walkable cells; the search stops
/// at the first walkable cell closer to the target than the start.
pub open spec fn bfs_level(open: spec_fn((i32, i32)) -> bool, start: (i32, i32), target: (i32, i32), n: nat) -> SearchState
    decreases n,
{
    if n == 0 {
        SearchState { seen: seq![start], level: seq![start], found: None }
    } else {
        let prev = bfs_level(open, start, target, (n - 1) as nat);
        if prev.found is Some {
            prev
        } else {
            see_level(
                open,
                manhattan(start, target),
                target,
                SearchState { seen: prev.seen, level: Seq::empty(), found: None },
                prev.level,
                0,
            )
        }
    }
}

/// The cell the breadth-first search of at most `max_depth` rounds finds.
pub open spec fn bfs_choice(g: GridLayers, entity: EntityId, start: (i32, i32), target: (i32, i32), max_depth: nat) -> Option<
    (i32, i32),
> {
    bfs_level(walk_pred(g, entity), start, target, max_depth).found
}

proof fn lemma_found_stays(open: spec_fn((i32, i32)) -> bool, start: (i32, i32), target: (i32, i32), a: nat, b: nat)
    requires
        a <= b,
        bfs_level(open, start, target, a).found is Some,
    ensures
        bfs_level(open, start, target, b) == bfs_level(open, start, target, a),
    decreases b,
{
    if a < b {
        lemma_found_stays(open, start, target, a, (b - 1) as nat);
    }
}

/// A cell closer to the target than `start`, reachable through cells that
/// `entity` may walk on within `max_depth` steps, found breadth-first with
/// neighbours in the order +x, -x, +z, -z. Cells reserved by other agents
/// and floor entities block; the agent's own reservations do not. `None`
/// only when no such cell exists.
pub fn bfs_closer(start: (i32, i32), target: (i32, i32), grid: &GridLayers, max_depth: u32, entity: EntityId) -> (r: Option<(i32, i32)>)
    requires
        grid.wf(),
    ensures
        r == bfs_choice(*grid, entity, start, target, max_depth as nat),
        match r {
            Some(c) => {
                &&& grid.spec_walkable_for(c.0 as int, c.1 as int, entity)
                &&& manhattan(c, target) < manhattan(start, target)
                &&& manhattan(start, c) <= max_depth
                &&& reach_within(*grid, entity, start, max_depth as nat, c)
            },
            None => forall|c: (i32, i32)|
                #[trigger] reach_within(*grid, entity, start, max_depth as nat, c) ==> manhattan(c, target) >= manhattan(
                    start,
                    target,
                ),
        },
{
    let ghost g = *grid;
    let ghost o = walk_pred(g, entity);
    let start_dist = manhattan_distance(start, target);
    let dirs: [(i64, i64); 4] = [(1, 0), (-1, 0), (0, 1), (0, -1)];
    let mut visited: Vec<(i32, i32)> = Vec::new();
    visited.push(start);
    let mut frontier: Vec<(i32, i32)> = Vec::new();
    frontier.push(start);
    proof {
        assert(visited@[0] == start);
        assert(frontier@[0] == start);
        assert(visited@ =~= seq![start]);
        assert(frontier@ =~= seq![start]);
    }
    let mut depth: u32 = 0;
    while depth < max_depth
        invariant
            g == *grid,
            grid.wf(),
            depth <= max_depth,
            start_dist == manhattan(start, target),
            dirs@ == seq![(1i64, 0i64), (-1i64, 0i64), (0i64, 1i64), (0i64, -1i64)],
            visited@.contains(start),
            o == walk_pred(g, entity),
            visited@ == bfs_level(o, start, target, depth as nat).seen,
            frontier@ == bfs_level(o, start, target, depth as nat).level,
            bfs_level(o, start, target, depth as nat).found is None,
            forall|k: int|
                0 <= k < frontier@.len() ==> {
                    let f = #[trigger] frontier@[k];
                    &&& manhattan(start, f) <= depth
                    &&& reach_within(g, entity, start, depth as nat, f)
                    &&& visited@.contains(f)
                },
            forall|c: (i32, i32)| #[trigger] reach_within(g, entity, start, depth as nat, c) ==> visited@.contains(c),
            forall|c: (i32, i32)|
                #[trigger] visited@.contains(c) && (c == start || g.spec_walkable_for(c.0 as int, c.1 as int, entity))
                    ==> frontier@.contains(c) || all_neighbours_in(visited@, c),
            forall|c: (i32, i32)|
                #[trigger] visited@.contains(c) && g.spec_walkable_for(c.0 as int, c.1 as int, entity) ==> manhattan(
                    c,
                    target,
                ) >= start_dist,
        decreases max_depth - depth,
    {
        let ghost old_vis = visited@;
        let mut next: Vec<(i32, i32)> = Vec::new();
        let mut i: usize = 0;
        let ghost goal = see_level(
            o,
            start_dist as int,
            target,
            SearchState { seen: visited@, level: Seq::empty(), found: None },
            frontier@,
            0,
        );
        proof {
            assert(next@ =~= Seq::<(i32, i32)>::empty());
        }
        while i < frontier.len()
            invariant
                g == *grid,
                grid.wf(),
                depth < max_depth,
                start_dist == manhattan(start, target),
                dirs@ == seq![(1i64, 0i64), (-1i64, 0i64), (0i64, 1i64), (0i64, -1i64)],
                0 <= i <= frontier@.len(),
                old_vis.contains(start),
                o == walk_pred(g, entity),
                bfs_level(o, start, target, (depth + 1) as nat) == goal,
                see_level(o, start_dist as int, target, SearchState { seen: visited@, level: next@, found: None }, frontier@, i as int)
                    == goal,
                forall|k: int|
                    0 <= k < frontier@.len() ==> {
                        let f = #[trigger] frontier@[k];
                        &&& manhattan(start, f) <= depth
                        &&& reach_within(g, entity, start, depth as nat, f)
                        &&& old_vis.contains(f)
                    },
                forall|c: (i32, i32)| #[trigger] reach_within(g, entity, start, depth as nat, c) ==> old_vis.contains(c),
                forall|x: (i32, i32)| old_vis.contains(x) ==> #[trigger] visited@.contains(x),
                forall|k: int| 0 <= k < i ==> all_neighbours_in(visited@, #[trigger] frontier@[k]),
                forall|c: (i32, i32)|
                    #[trigger] old_vis.contains(c) && (c == start || g.spec_walkable_for(c.0 as int, c.1 as int, entity))
                        ==> frontier@.contains(c) || all_neighbours_in(visited@, c),
                forall|c: (i32, i32)|
                    #[trigger] visited@.contains(c) && !old_vis.contains(c) && g.spec_walkable_for(
                        c.0 as int,
                        c.1 as int,
                        entity,
                    ) ==> next@.contains(c),
                forall|k: int|
                    0 <= k < next@.len() ==> {
                        let c = #[trigger] next@[k];
                        &&& !old_vis.contains(c)
                        &&& visited@.contains(c)
                        &&& g.spec_walkable_for(c.0 as int, c.1 as int, entity)
                        &&& reach_within(g, entity, start, (depth + 1) as nat, c)
                        &&& manhattan(start, c) <= depth + 1
                    },
                forall|c: (i32, i32)|
                    #[trigger] visited@.contains(c) && g.spec_walkable_for(c.0 as int, c.1 as int, entity) ==> manhattan(
                        c,
                        target,
                    ) >= start_dist,
            decreases frontier@.len() - i,
        {
            let cell = frontier[i];
            proof {
                let cur = SearchState { seen: visited@, level: next@, found: None };
                assert(see_level(o, start_dist as int, target, cur, frontier@, i as int) == see_level(
                    o,
                    start_dist as int,
                    target,
                    see_neighbours(o, start_dist as int, target, cur, cell, 0),
                    frontier@,
                    i + 1,
                ));
            }
            assert(manhattan(start, frontier@[i as int]) <= depth);
            let mut k: usize = 0;
            while k < 4
                invariant
                    g == *grid,
                    grid.wf(),
                    depth < max_depth,
                    start_dist == manhattan(start, target),
                    dirs@ == seq![(1i64, 0i64), (-1i64, 0i64), (0i64, 1i64), (0i64, -1i64)],
                    0 <= i < frontier@.len(),
                    cell == frontier@[i as int],
                    0 <= k <= 4,
                    manhattan(start, cell) <= depth,
                    reach_within(g, entity, start, depth as nat, cell),
                    old_vis.contains(start),
                    o == walk_pred(g, entity),
                    bfs_level(o, start, target, (depth + 1) as nat) == goal,
                    see_level(
                        o,
                        start_dist as int,
                        target,
                        see_neighbours(
                            o,
                            start_dist as int,
                            target,
                            SearchState { seen: visited@, level: next@, found: None },
                            cell,
                            k as int,
                        ),
                        frontier@,
                        i + 1,
                    ) == goal,
                    forall|c: (i32, i32)| #[trigger] reach_within(g, entity, start, depth as nat, c) ==> old_vis.contains(c),
                    forall|x: (i32, i32)| old_vis.contains(x) ==> #[trigger] visited@.contains(x),
                    forall|kk: int| 0 <= kk < i ==> all_neighbours_in(visited@, #[trigger] frontier@[kk]),
                    forall|j: int| 0 <= j < k && neighbour_fits(cell, j) ==> visited@.contains(#[trigger] neighbour_cell(cell, j)),
                    forall|c: (i32, i32)|
                        #[trigger] old_vis.contains(c) && (c == start || g.spec_walkable_for(c.0 as int, c.1 as int, entity))
                            ==> frontier@.contains(c) || all_neighbours_in(visited@, c),
                    forall|c: (i32, i32)|
                        #[trigger] visited@.contains(c) && !old_vis.contains(c) && g.spec_walkable_for(
                            c.0 as int,
                            c.1 as int,
                            entity,
                        ) ==> next@.contains(c),
                    forall|kk: int|
                        0 <= kk < next@.len() ==> {
                            let c = #[trigger] next@[kk];
                            &&& !old_vis.contains(c)
                            &&& visited@.contains(c)
                            &&& g.spec_walkable_for(c.0 as int, c.1 as int, entity)
                            &&& reach_within(g, entity, start, (depth + 1) as nat, c)
                            &&& manhattan(start, c) <= depth + 1
                        },
                    forall|c: (i32, i32)|
                        #[trigger] visited@.contains(c) && g.spec_walkable_for(c.0 as int, c.1 as int, entity)
                            ==> manhattan(c, target) >= start_dist,
                decreases 4 - k,
            {
                let (dx, dz) = dirs[k];
                let nx: i64 = cell.0 as i64 + dx;
                let nz: i64 = cell.1 as i64 + dz;
                assert(neighbour_of(cell, k as int) == (nx as int, nz as int));
                if i32::MIN as i64 <= nx && nx <= i32::MAX as i64 && i32::MIN as i64 <= nz && nz <= i32::MAX as i64 {
                    let n: (i32, i32) = (nx as i32, nz as i32);
                    assert(n == neighbour_cell(cell, k as int));
                    assert(manhattan(start, n) <= depth + 1);
                    let ghost vis0 = visited@;
                    let ghost next0 = next@;
                    let found = visit(n, target, start_dist, grid, entity, &mut visited, &mut next);
                    proof {
                        let cur = SearchState { seen: vis0, level: next0, found: None };
                        let seen_n = see(o, start_dist as int, target, cur, n);
                        assert(see_neighbours(o, start_dist as int, target, cur, cell, k as int) == see_neighbours(
                            o,
                            start_dist as int,
                            target,
                            seen_n,
                            cell,
                            k + 1,
                        ));
                        if found {
                            assert(seen_n == SearchState { seen: visited@, level: next0, found: Some(n) });
                        } else {
                            assert(seen_n == SearchState { seen: visited@, level: next@, found: None });
                        }
                        lemma_push_contains(vis0, n);
                        lemma_push_contains(next0, n);
                        assert(visited@.contains(n));
                        assert forall|x: (i32, i32)| vis0.contains(x) implies #[trigger] visited@.contains(x) by {}
                        assert forall|kk: int| 0 <= kk < i implies all_neighbours_in(visited@, #[trigger] frontier@[kk]) by {
                            lemma_neighbours_grow(vis0, visited@, frontier@[kk]);
                        }
                        assert forall|c: (i32, i32)|
                            #[trigger] old_vis.contains(c) && (c == start || g.spec_walkable_for(c.0 as int, c.1 as int, entity))
                                implies frontier@.contains(c) || all_neighbours_in(visited@, c) by {
                            if !frontier@.contains(c) {
                                lemma_neighbours_grow(vis0, visited@, c);
                            }
                        }
                        if !vis0.contains(n) && g.spec_walkable_for(n.0 as int, n.1 as int, entity) {
                            assert(reach_within(g, entity, start, (depth + 1) as nat, n));
                        }
                        if !found && next@.len() > next0.len() {
                            assert(next@[next@.len() - 1] == n);
                        }
                    }
                    if found {
                        proof {
                            assert(reach_within(g, entity, start, (depth + 1) as nat, n));
                            lemma_reach_monotone(g, entity, start, (depth + 1) as nat, max_depth as nat, n);
                            let fs = SearchState { seen: visited@, level: next0, found: Some(n) };
                            assert(see_neighbours(o, start_dist as int, target, fs, cell, k + 1) == fs);
                            assert(see_level(o, start_dist as int, target, fs, frontier@, i + 1) == fs);
                            assert(goal.found == Some(n));
                            lemma_found_stays(o, start, target, (depth + 1) as nat, max_depth as nat);
                        }
                        return Some(n);
                    }
                } else {
                    proof {
                        assert(!neighbour_fits(cell, k as int));
                        let cur = SearchState { seen: visited@, level: next@, found: None };
                        assert(see_neighbours(o, start_dist as int, target, cur, cell, k as int) == see_neighbours(
                            o,
                            start_dist as int,
                            target,
                            cur,
                            cell,
                            k + 1,
                        ));
                    }
                }
                k = k + 1;
            }
            proof {
                assert(all_neighbours_in(visited@, cell));
                let cur = SearchState { seen: visited@, level: next@, found: None };
                assert(see_neighbours(o, start_dist as int, target, cur, cell, 4) == cur);
            }
            i = i + 1;
        }
        proof {
            assert forall|c: (i32, i32)| #[trigger] reach_within(g, entity, start, (depth + 1) as nat, c) implies visited@.contains(
                c,
            ) by {
                if c != start && !reach_within(g, entity, start, depth as nat, c) {
                    let (p, j) = choose|p: (i32, i32), j: int|
                        0 <= j < 4 && neighbour_fits(p, j) && reach_within(g, entity, start, depth as nat, p)
                            && #[trigger] neighbour_cell(p, j) == c;
                    assert(old_vis.contains(p));
                    if p != start {
                        lemma_reach_walkable(g, entity, start, depth as nat, p);
                    }
                    if frontier@.contains(p) {
                        let kk = choose|kk: int| 0 <= kk < frontier@.len() && frontier@[kk] == p;
                        assert(all_neighbours_in(visited@, frontier@[kk]));
                    }
                    assert(all_neighbours_in(visited@, p));
                    assert(visited@.contains(neighbour_cell(p, j)));
                }
            }
            assert forall|c: (i32, i32)|
                #[trigger] visited@.contains(c) && (c == start || g.spec_walkable_for(c.0 as int, c.1 as int, entity))
                    implies next@.contains(c) || all_neighbours_in(visited@, c) by {
                if old_vis.contains(c) {
                    if frontier@.contains(c) {
                        let kk = choose|kk: int| 0 <= kk < frontier@.len() && frontier@[kk] == c;
                        assert(all_neighbours_in(visited@, frontier@[kk]));
                    }
                }
            }
            assert forall|kk: int| 0 <= kk < next@.len() implies {
                let f = #[trigger] next@[kk];
                &&& manhattan(start, f) <= depth + 1
                &&& reach_within(g, entity, start, (depth + 1) as nat, f)
                &&& visited@.contains(f)
            } by {}
        }
        proof {
            let cur = SearchState { seen: visited@, level: next@, found: None };
            assert(see_level(o, start_dist as int, target, cur, frontier@, frontier@.len() as int) == cur);
            assert(bfs_level(o, start, target, (depth + 1) as nat) == cur);
        }
        let ghost d0 = depth;
        frontier = next;
        depth = depth + 1;
        proof {
            assert forall|c: (i32, i32)| #[trigger] reach_within(g, entity, start, depth as nat, c) implies visited@.contains(
                c,
            ) by {
                assert(reach_within(g, entity, start, (d0 + 1) as nat, c));
            }
            assert(bfs_level(o, start, target, depth as nat) == bfs_level(o, start, target, (d0 + 1) as nat));
        }
    }
    proof {
        assert forall|c: (i32, i32)| #[trigger] reach_within(g, entity, start, max_depth as nat, c) implies manhattan(
            c,
            target,
        ) >= manhattan(start, target) by {
            assert(visited@.contains(c));
            if c != start {
                lemma_reach_walkable(g, entity, start, max_depth as nat, c);
            }
        }
    }
    None
}

/// The reservation of `cell` for `entity` passing through would succeed.
pub open spec fn reservable(g: GridLayers, cell: (i32, i32), entity: EntityId, ttl: Option<u8>) -> bool {
    spec_try_reserve(g.in_bounds(cell.0 as int, cell.1 as int), g.reserved_at(cell.0 as int, cell.1 as int), entity, CellIntent::Transient, ttl)
        != ReserveResult::Blocked
}

/// The direct step toward the target, then a quarter turn left, a quarter
/// turn right, and staying.
pub open spec fn fan(current: (i32, i32), target: (i32, i32)) -> Seq<(i32, i32)> {
    let d = spec_direction_toward(current, target);
    seq![
        ((current.0 + d.0) as i32, (current.1 + d.1) as i32),
        ((current.0 - d.1) as i32, (current.1 + d.0) as i32),
        ((current.0 + d.1) as i32, (current.1 - d.0) as i32),
        current,
    ]
}

/// Position of the first fan cell whose reservation would succeed.
pub open spec fn first_reservable(g: GridLayers, cells: Seq<(i32, i32)>, entity: EntityId, ttl: Option<u8>) -> Option<int> {
    if exists|k: int| 0 <= k < cells.len() && reservable(g, #[trigger] cells[k], entity, ttl) {
        Some(
            choose|k: int|
                0 <= k < cells.len() && reservable(g, cells[k], entity, ttl) && forall|j: int|
                    0 <= j < k ==> !reservable(g, #[trigger] cells[j], entity, ttl),
        )
    } else {
        None
    }
}

/// `after` is `before` with `cell` reserved for `entity` passing through.
pub open spec fn reserved_for(after: GridLayers, before: GridLayers, cell: (i32, i32), entity: EntityId, ttl: Option<u8>) -> bool {
    &&& after.wf()
    &&& after.same_but_reservations(&before)
    &&& forall|a: int, b: int|
        #![trigger after.reserved_at(a, b)]
        after.reserved_at(a, b) == if a == cell.0 && b == cell.1 {
            Some(ReservationEntry { entity, duration: ReservationDuration::Timed(ttl->0), intent: CellIntent::Transient })
        } else {
            before.reserved_at(a, b)
        }
}

/// `after` holds the same cells and reservations as `before`.
pub open spec fn same_cells(after: GridLayers, before: GridLayers) -> bool {
    &&& after.wf()
    &&& after.same_but_reservations(&before)
    &&& forall|a: int, b: int| #[trigger] after.reserved_at(a, b) == before.reserved_at(a, b)
}

/// The coordinates around `current` stay inside `i32`.
pub open spec fn step_fits(current: (i32, i32)) -> bool {
    i32::MIN < current.0 < i32::MAX && i32::MIN < current.1 < i32::MAX
}

fn attempt(grid: &mut GridLayers, cell: (i32, i32), entity: EntityId, ttl: Option<u8>) -> (r: bool)
    requires
        old(grid).wf(),
    ensures
        r == reservable(*old(grid), cell, entity, ttl),
        r ==> reserved_for(*final(grid), *old(grid), cell, entity, ttl),
        !r ==> same_cells(*final(grid), *old(grid)),
{
    let res = grid.try_reserve(cell.0, cell.1, entity, CellIntent::Transient, ttl);
    match res {
        ReserveResult::Claimed => true,
        ReserveResult::Preempted(_) => true,
        ReserveResult::Blocked => false,
    }
}

/// One navigation step of `entity` at `current` toward `target`. `ttl` is
/// the lifetime of the reservation in ticks (`None` blocks every claim).
/// The direct step is taken without a reservation when it reaches the
/// target; otherwise the first fan cell whose reservation succeeds is taken;
/// otherwise the cell found by `bfs_closer` (depth 3) is taken when it is the
/// target or can be reserved; otherwise the agent waits.
pub fn local_step(entity: EntityId, current: (i32, i32), target: (i32, i32), grid: &mut GridLayers, ttl: Option<u8>) -> (r: StepResult)
    requires
        old(grid).wf(),
        step_fits(current),
    ensures
        final(grid).wf(),
        fan(current, target)[0] == target ==> r == (StepResult::Advance { to: target }) && *final(grid) == *old(grid),
        fan(current, target)[0] != target ==> match first_reservable(*old(grid), fan(current, target), entity, ttl) {
            Some(k) => r == (StepResult::Advance { to: fan(current, target)[k] }) && reserved_for(
                *final(grid),
                *old(grid),
                fan(current, target)[k],
                entity,
                ttl,
            ),
            None => match bfs_choice(*old(grid), entity, current, target, 3) {
                Some(c) => if c == target {
                    r == (StepResult::Advance { to: c }) && same_cells(*final(grid), *old(grid))
                } else if reservable(*old(grid), c, entity, ttl) {
                    r == (StepResult::Advance { to: c }) && reserved_for(*final(grid), *old(grid), c, entity, ttl)
                } else {
                    r == StepResult::Wait && same_cells(*final(grid), *old(grid))
                },
                None => r == StepResult::Wait && same_cells(*final(grid), *old(grid)),
            },
        },
{
    let ghost g0 = *grid;
    let ghost cands = fan(current, target);
    let d = direction_toward(current, target);
    let ideal = (current.0 + d.0, current.1 + d.1);
    assert(ideal == cands[0]);
    if ideal.0 == target.0 && ideal.1 == target.1 {
        return StepResult::Advance { to: ideal };
    }
    let left = (current.0 - d.1, current.1 + d.0);
    let right = (current.0 + d.1, current.1 - d.0);
    assert(left == cands[1] && right == cands[2] && current == cands[3]);
    let candidates = [ideal, left, right, current];
    let mut k: usize = 0;
    while k < 4
        invariant
            0 <= k <= 4,
            candidates@ == cands,
            cands == fan(current, target),
            cands[0] != target,
            g0 == *old(grid),
            g0.wf(),
            same_cells(*grid, g0),
            forall|j: int| 0 <= j < k ==> !reservable(g0, #[trigger] cands[j], entity, ttl),
        decreases 4 - k,
    {
        let c = candidates[k];
        proof {
            assert(reservable(*grid, c, entity, ttl) == reservable(g0, c, entity, ttl));
        }
        let ghost before = *grid;
        if attempt(grid, c, entity, ttl) {
            proof {
                assert forall|a: int, b: int| #![trigger grid.reserved_at(a, b)] grid.reserved_at(a, b) == if a == c.0 && b == c.1 {
                    Some(ReservationEntry { entity, duration: ReservationDuration::Timed(ttl->0), intent: CellIntent::Transient })
                } else {
                    g0.reserved_at(a, b)
                } by {
                    assert(before.reserved_at(a, b) == g0.reserved_at(a, b));
                }
                assert forall|a: int, b: int| #[trigger] grid.floor_at(a, b) == g0.floor_at(a, b) by {
                    assert(before.floor_at(a, b) == g0.floor_at(a, b));
                }
                assert forall|a: int, b: int| #[trigger] grid.ceiling_at(a, b) == g0.ceiling_at(a, b) by {
                    assert(before.ceiling_at(a, b) == g0.ceiling_at(a, b));
                }
                assert forall|a: int, b: int| #[trigger] grid.surface_at(a, b) == g0.surface_at(a, b) by {
                    assert(before.surface_at(a, b) == g0.surface_at(a, b));
                }
                assert(reserved_for(*grid, g0, c, entity, ttl));
                let fk = first_reservable(g0, cands, entity, ttl);
                assert(reservable(g0, cands[k as int], entity, ttl));
                assert(0 <= k < cands.len() && reservable(g0, cands[k as int], entity, ttl) && forall|j: int|
                    0 <= j < k ==> !reservable(g0, #[trigger] cands[j], entity, ttl));
                let w = choose|w: int|
                    0 <= w < cands.len() && reservable(g0, cands[w], entity, ttl) && forall|j: int|
                        0 <= j < w ==> !reservable(g0, #[trigger] cands[j], entity, ttl);
                if w < k {
                    assert(!reservable(g0, cands[w], entity, ttl));
                }
                if k < w {
                    assert(!reservable(g0, cands[k as int], entity, ttl));
                }
                assert(w == k);
                assert(fk == Some(k as int));
                assert(cands[k as int] == c);
            }
            return StepResult::Advance { to: c };
        }
        proof {
            assert forall|a: int, b: int| #[trigger] grid.reserved_at(a, b) == g0.reserved_at(a, b) by {
                assert(before.reserved_at(a, b) == g0.reserved_at(a, b));
            }
        }
        k = k + 1;
    }
    proof {
        assert forall|w: int| 0 <= w < cands.len() implies !reservable(g0, #[trigger] cands[w], entity, ttl) by {}
        assert(first_reservable(g0, cands, entity, ttl) is None);
        assert forall|a: int, b: int| #[trigger] grid.spec_walkable_for(a, b, entity) == g0.spec_walkable_for(a, b, entity) by {
            assert(grid.reserved_at(a, b) == g0.reserved_at(a, b));
            assert(grid.floor_at(a, b) == g0.floor_at(a, b));
        }
    }
    proof {
        assert(walk_pred(*grid, entity) =~= walk_pred(g0, entity));
        assert(bfs_choice(*grid, entity, current, target, 3) == bfs_choice(g0, entity, current, target, 3));
    }
    match bfs_closer(current, target, grid, 3, entity) {
        Some(b) => {
            assert(grid.spec_walkable_for(b.0 as int, b.1 as int, entity));
            if b.0 == target.0 && b.1 == target.1 {
                return StepResult::Advance { to: b };
            }
            proof {
                assert(reservable(*grid, b, entity, ttl) == reservable(g0, b, entity, ttl));
            }
            let ghost before = *grid;
            if attempt(grid, b, entity, ttl) {
                proof {
                    assert forall|a: int, b2: int| #![trigger grid.reserved_at(a, b2)] grid.reserved_at(a, b2) == if a == b.0 && b2 == b.1 {
                        Some(ReservationEntry { entity, duration: ReservationDuration::Timed(ttl->0), intent: CellIntent::Transient })
                    } else {
                        g0.reserved_at(a, b2)
                    } by {
                        assert(before.reserved_at(a, b2) == g0.reserved_at(a, b2));
                    }
                    assert forall|a: int, b2: int| #[trigger] grid.floor_at(a, b2) == g0.floor_at(a, b2) by {
                        assert(before.floor_at(a, b2) == g0.floor_at(a, b2));
                    }
                    assert forall|a: int, b2: int| #[trigger] grid.ceiling_at(a, b2) == g0.ceiling_at(a, b2) by {
                        assert(before.ceiling_at(a, b2) == g0.ceiling_at(a, b2));
                    }
                    assert forall|a: int, b2: int| #[trigger] grid.surface_at(a, b2) == g0.surface_at(a, b2) by {
                        assert(before.surface_at(a, b2) == g0.surface_at(a, b2));
                    }
                }
                return StepResult::Advance { to: b };
            }
            proof {
                assert forall|a: int, b2: int| #[trigger] grid.reserved_at(a, b2) == g0.reserved_at(a, b2) by {
                    assert(before.reserved_at(a, b2) == g0.reserved_at(a, b2));
                }
            }
            StepResult::Wait
        },
        None => StepResult::Wait,
    }
}

} // verus!
