//! Advancing agents along their paths.

use vstd::prelude::*;
use crate::base::components::{arrive_at_waypoint, GridPosition, PathQueue, SegmentEnd};

verus! {

/// An agent whose segment is complete stands on its end cell and takes the
/// next waypoint; with none left the caller marks the navigation complete.
pub fn agent_movement_tick(path: &mut PathQueue, to: (i32, i32)) -> (r: (GridPosition, SegmentEnd))
    ensures
        r.0 == (GridPosition { x: to.0, z: to.1 }),
        old(path).path@.len() > 0 ==> r.1 == (SegmentEnd::Next { from: to, to: old(path).path@[0] })
            && final(path).path@ == old(path).path@.skip(1),
        old(path).path@.len() == 0 ==> r.1 == SegmentEnd::Complete && final(path).path@ == old(path).path@,
{
    arrive_at_waypoint(path, to)
}

} // verus!
