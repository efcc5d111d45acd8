//! Geometric zones around appliances: lines, the rows in front of an
//! appliance, the ring of cells near a footprint, and clipping to the grid.

use vstd::prelude::*;
use crate::base::components::GridDirection;
use crate::base::world::in_grid;
use crate::sim::components::{facing, ApplianceGeometry};
use crate::sim::select::{manhattan, manhattan_distance};
use crate::sim::small_lists::{cells_new, cells_of, cells_push, list_room, CellList};

verus! {

/// The cell `k + 1` steps from `start` in direction `dir`.
pub open spec fn line_cell(start: (i32, i32), dir: GridDirection, k: int) -> (int, int) {
    let o = facing(dir);
    (start.0 + o.0 * (k + 1), start.1 + o.1 * (k + 1))
}

/// `length` cells from `start` (excluded) along `dir`.
pub open spec fn spec_line(start: (i32, i32), dir: GridDirection, length: int) -> Seq<(i32, i32)> {
    Seq::new(length as nat, |k: int| ((line_cell(start, dir, k).0) as i32, (line_cell(start, dir, k).1) as i32))
}

/// The line fits in `i32` and in a list.
pub open spec fn line_fits(start: (i32, i32), dir: GridDirection, length: int) -> bool {
    &&& 0 <= length <= i32::MAX
    &&& length < list_room()
    &&& length > 0 ==> {
        let e = line_cell(start, dir, length - 1);
        i32::MIN <= e.0 <= i32::MAX && i32::MIN <= e.1 <= i32::MAX
    }
}

proof fn lemma_line_cell_fits(start: (i32, i32), dir: GridDirection, length: int, k: int)
    requires
        line_fits(start, dir, length),
        0 <= k < length,
    ensures
        i32::MIN <= line_cell(start, dir, k).0 <= i32::MAX,
        i32::MIN <= line_cell(start, dir, k).1 <= i32::MAX,
{
}

/// `length` cells along `dir` from `start`, excluding `start`.
pub fn line(start: (i32, i32), dir: GridDirection, length: u32) -> (r: CellList)
    requires
        line_fits(start, dir, length as int),
    ensures
        cells_of(r) == spec_line(start, dir, length as int),
{
    let mut cells = cells_new();
    let (ox, oz) = dir.facing_offset();
    let mut i: u32 = 1;
    while i <= length
        invariant
            1 <= i <= length + 1,
            line_fits(start, dir, length as int),
            (ox as int, oz as int) == facing(dir),
            cells_of(cells) == spec_line(start, dir, length as int).subrange(0, i - 1),
        decreases length + 1 - i,
    {
        proof {
            lemma_line_cell_fits(start, dir, length as int, i - 1);
        }
        let ii = i as i32;
        let c = (start.0 + ox * ii, start.1 + oz * ii);
        proof {
            assert(spec_line(start, dir, length as int)[i - 1] == c);
            assert(cells_of(cells).push(c) == spec_line(start, dir, length as int).subrange(0, i as int));
        }
        cells_push(&mut cells, c);
        i = i + 1;
    }
    proof {
        assert(spec_line(start, dir, length as int).subrange(0, length as int) == spec_line(start, dir, length as int));
    }
    cells
}

/// Offset of width-column `w`: along x for appliances facing along z, along
/// z for those facing along x.
pub open spec fn column_offset(dir: GridDirection, w: int) -> (int, int) {
    match dir {
        GridDirection::PosX | GridDirection::NegX => (0, w),
        GridDirection::PosZ | GridDirection::NegZ => (w, 0),
    }
}

/// Cell `d` rows (1-based) in front of column `w` of an appliance.
pub open spec fn front_cell(anchor: (i32, i32), dir: GridDirection, w: int, d: int) -> (int, int) {
    let c = column_offset(dir, w);
    let o = facing(dir);
    (anchor.0 + c.0 + o.0 * d, anchor.1 + c.1 + o.1 * d)
}

/// The cells in front of an appliance: for each width column in order, the
/// rows 1 to `depth` in front of it.
pub open spec fn spec_front_cells(anchor: (i32, i32), geo: ApplianceGeometry, depth: int) -> Seq<(i32, i32)> {
    if geo.right > 0 && depth > 0 {
        Seq::new(
            (geo.right * depth) as nat,
            |k: int| {
                let c = front_cell(anchor, geo.direction, k / depth, k % depth + 1);
                (c.0 as i32, c.1 as i32)
            },
        )
    } else {
        Seq::empty()
    }
}

/// Every front cell fits in `i32`, and the cells fit in a list.
pub open spec fn front_fits(anchor: (i32, i32), geo: ApplianceGeometry, depth: int) -> bool {
    &&& depth <= i32::MAX
    &&& geo.right * depth < list_room()
    &&& forall|w: int, d: int|
        0 <= w < geo.right && 1 <= d <= depth ==> {
            let c = #[trigger] front_cell(anchor, geo.direction, w, d);
            i32::MIN <= anchor.0 + column_offset(geo.direction, w).0 <= i32::MAX
                && i32::MIN <= anchor.1 + column_offset(geo.direction, w).1 <= i32::MAX
                && i32::MIN <= c.0 <= i32::MAX && i32::MIN <= c.1 <= i32::MAX
        }
}

/// Multiplying by a unit step.
pub proof fn lemma_unit_mul(d: int, v: int)
    requires
        -1 <= d <= 1,
    ensures
        d * v == if d == 0 { 0 } else if d == 1 { v } else { -v },
{
    assert(d * v == if d == 0 { 0 } else if d == 1 { v } else { -v }) by (nonlinear_arith)
        requires
            -1 <= d <= 1,
    ;
}

/// Cells in front of an appliance, `depth` rows deep, for each of its
/// `right` width columns.
pub fn front_cells(anchor: (i32, i32), geo: &ApplianceGeometry, depth: u32) -> (r: CellList)
    requires
        front_fits(anchor, *geo, depth as int),
    ensures
        cells_of(r) == spec_front_cells(anchor, *geo, depth as int),
{
    let mut cells = cells_new();
    let (ox, oz) = geo.direction.facing_offset();
    if geo.right <= 0 || depth == 0 {
        return cells;
    }
    let ghost target = spec_front_cells(anchor, *geo, depth as int);
    let dd = depth as i32;
    let mut w: i32 = 0;
    while w < geo.right
        invariant
            0 < geo.right,
            0 < dd,
            dd == depth,
            0 <= w <= geo.right,
            (ox as int, oz as int) == facing(geo.direction),
            front_fits(anchor, *geo, depth as int),
            target == spec_front_cells(anchor, *geo, depth as int),
            cells_of(cells) == target.subrange(0, w * depth),
        decreases geo.right - w,
    {
        let (dx, dz): (i32, i32) = match geo.direction {
            GridDirection::PosX | GridDirection::NegX => (0, w),
            GridDirection::PosZ | GridDirection::NegZ => (w, 0),
        };
        let mut d: i64 = 1;
        while d <= dd as i64
            invariant
                0 < geo.right,
                0 < dd,
                dd == depth,
                0 <= w < geo.right,
                1 <= d <= dd + 1,
                (ox as int, oz as int) == facing(geo.direction),
                (dx as int, dz as int) == column_offset(geo.direction, w as int),
                front_fits(anchor, *geo, depth as int),
                target == spec_front_cells(anchor, *geo, depth as int),
                cells_of(cells) == target.subrange(0, w * depth + d - 1),
            decreases dd + 1 - d,
        {
            let ghost k = w * depth + d - 1;
            let ghost fc = front_cell(anchor, geo.direction, w as int, d as int);
            proof {
                assert(0 <= k < geo.right * depth) by (nonlinear_arith)
                    requires
                        0 <= w < geo.right,
                        1 <= d <= depth,
                        k == w * depth + d - 1,
                ;
                assert(k / (depth as int) == w as int && k % (depth as int) == d - 1) by (nonlinear_arith)
                    requires
                        0 <= d - 1 < depth,
                        0 <= w,
                        k == w * depth + d - 1,
                ;
                lemma_unit_mul(ox as int, d as int);
                lemma_unit_mul(oz as int, d as int);
                assert(target[k] == (fc.0 as i32, fc.1 as i32));
                assert(geo.right * depth < list_room());
                assert(k < list_room());
            }
            let di = d as i32;
            let c = (anchor.0 + dx + ox * di, anchor.1 + dz + oz * di);
            proof {
                assert(cells_of(cells).push(c) == target.subrange(0, k + 1));
            }
            cells_push(&mut cells, c);
            d = d + 1;
        }
        proof {
            assert(w * depth + depth == (w + 1) * depth) by (nonlinear_arith);
        }
        w = w + 1;
    }
    proof {
        assert(target.len() == geo.right * depth) by (nonlinear_arith)
            requires
                target == spec_front_cells(anchor, *geo, depth as int),
                geo.right > 0,
                depth > 0,
        ;
        assert(target.subrange(0, geo.right * depth) == target);
    }
    cells
}

/// Smallest Manhattan distance from `c` to a footprint cell; `i32::MAX` for
/// an empty footprint.
pub open spec fn min_dist(c: (i32, i32), fp: Seq<(i32, i32)>) -> int
    decreases fp.len(),
{
    if fp.len() == 0 {
        i32::MAX as int
    } else {
        let rest = min_dist(c, fp.drop_last());
        let d = manhattan(c, fp.last());
        if fp.len() == 1 || d < rest {
            d
        } else {
            rest
        }
    }
}

/// Smallest (`pick_x`) x or z coordinate of the footprint; 0 when empty.
pub open spec fn min_coord(fp: Seq<(i32, i32)>, pick_x: bool) -> int
    decreases fp.len(),
{
    if fp.len() == 0 {
        0
    } else {
        let v: int = if pick_x { fp.last().0 as int } else { fp.last().1 as int };
        if fp.len() == 1 {
            v
        } else {
            let rest = min_coord(fp.drop_last(), pick_x);
            if v < rest { v } else { rest }
        }
    }
}

/// Largest x or z coordinate of the footprint; 0 when empty.
pub open spec fn max_coord(fp: Seq<(i32, i32)>, pick_x: bool) -> int
    decreases fp.len(),
{
    if fp.len() == 0 {
        0
    } else {
        let v: int = if pick_x { fp.last().0 as int } else { fp.last().1 as int };
        if fp.len() == 1 {
            v
        } else {
            let rest = max_coord(fp.drop_last(), pick_x);
            if v > rest { v } else { rest }
        }
    }
}

pub(crate) fn footprint_extent(fp: &[(i32, i32)]) -> (r: (i32, i32, i32, i32))
    ensures
        r.0 == min_coord(fp@, true),
        r.1 == max_coord(fp@, true),
        r.2 == min_coord(fp@, false),
        r.3 == max_coord(fp@, false),
{
    let mut lx: i32 = 0;
    let mut hx: i32 = 0;
    let mut lz: i32 = 0;
    let mut hz: i32 = 0;
    let mut i: usize = 0;
    while i < fp.len()
        invariant
            0 <= i <= fp@.len(),
            lx == min_coord(fp@.subrange(0, i as int), true),
            hx == max_coord(fp@.subrange(0, i as int), true),
            lz == min_coord(fp@.subrange(0, i as int), false),
            hz == max_coord(fp@.subrange(0, i as int), false),
        decreases fp@.len() - i,
    {
        let (x, z) = fp[i];
        proof {
            assert(fp@.subrange(0, i + 1).drop_last() =~= fp@.subrange(0, i as int));
        }
        if i == 0 {
            lx = x;
            hx = x;
            lz = z;
            hz = z;
        } else {
            if x < lx {
                lx = x;
            }
            if x > hx {
                hx = x;
            }
            if z < lz {
                lz = z;
            }
            if z > hz {
                hz = z;
            }
        }
        i = i + 1;
    }
    proof {
        assert(fp@.subrange(0, fp@.len() as int) =~= fp@);
    }
    (lx, hx, lz, hz)
}

fn min_distance_to(c: (i32, i32), fp: &[(i32, i32)]) -> (r: u64)
    ensures
        r == min_dist(c, fp@),
{
    let mut best: u64 = 0x7fff_ffffu64;
    let mut i: usize = 0;
    while i < fp.len()
        invariant
            0 <= i <= fp@.len(),
            best == min_dist(c, fp@.subrange(0, i as int)),
        decreases fp@.len() - i,
    {
        proof {
            assert(fp@.subrange(0, i + 1).drop_last() =~= fp@.subrange(0, i as int));
        }
        let d = manhattan_distance(c, fp[i]);
        if i == 0 || d < best {
            best = d;
        }
        i = i + 1;
    }
    proof {
        assert(fp@.subrange(0, fp@.len() as int) =~= fp@);
    }
    best
}

fn contains_cell(fp: &[(i32, i32)], c: (i32, i32)) -> (r: bool)
    ensures
        r == fp@.contains(c),
{
    let mut i: usize = 0;
    while i < fp.len()
        invariant
            0 <= i <= fp@.len(),
            forall|k: int| 0 <= k < i ==> fp@[k] != c,
        decreases fp@.len() - i,
    {
        if fp[i].0 == c.0 && fp[i].1 == c.1 {
            assert(fp@[i as int] == c);
            return true;
        }
        i = i + 1;
    }
    false
}

/// The cells of the box `[lox, hix] x [loz, hiz]`, x-major.
pub open spec fn box_cells(lox: int, hix: int, loz: int, hiz: int) -> Seq<(i32, i32)> {
    let nz = hiz - loz + 1;
    if lox <= hix && loz <= hiz {
        Seq::new(((hix - lox + 1) * nz) as nat, |k: int| ((lox + k / nz) as i32, (loz + k % nz) as i32))
    } else {
        Seq::empty()
    }
}

/// Outside the footprint and within `r` of it.
pub open spec fn near(fp: Seq<(i32, i32)>, r: int, c: (i32, i32)) -> bool {
    !fp.contains(c) && min_dist(c, fp) <= r
}

/// The box cells near the footprint, in box order.
pub open spec fn ring(fp: Seq<(i32, i32)>, r: int, lox: int, hix: int, loz: int, hiz: int) -> Seq<(i32, i32)> {
    box_cells(lox, hix, loz, hiz).filter(|c: (i32, i32)| near(fp, r, c))
}

/// The box lies in `i32` and its cells fit in a list.
pub open spec fn box_fits(lox: int, hix: int, loz: int, hiz: int) -> bool {
    &&& i32::MIN <= lox && hix <= i32::MAX
    &&& i32::MIN <= loz && hiz <= i32::MAX
    &&& (lox <= hix && loz <= hiz) ==> (hix - lox + 1) * (hiz - loz + 1) < list_room()
}

pub proof fn lemma_filter_step(s: Seq<(i32, i32)>, k: int, pred: spec_fn((i32, i32)) -> bool)
    requires
        0 <= k < s.len(),
    ensures
        s.subrange(0, k + 1).filter(pred) == if pred(s[k]) {
            s.subrange(0, k).filter(pred).push(s[k])
        } else {
            s.subrange(0, k).filter(pred)
        },
        s.subrange(0, k).filter(pred).len() <= k,
{
    assert(s.subrange(0, k + 1) =~= s.subrange(0, k).push(s[k]));
    s.subrange(0, k).lemma_filter_push(s[k], pred);
    s.subrange(0, k).lemma_filter_len(pred);
}

/// Cells of the box near the footprint, x-major.
pub(crate) fn ring_cells(fp: &[(i32, i32)], r: i64, lox: i64, hix: i64, loz: i64, hiz: i64) -> (out: CellList)
    requires
        box_fits(lox as int, hix as int, loz as int, hiz as int),
    ensures
        cells_of(out) == ring(fp@, r as int, lox as int, hix as int, loz as int, hiz as int),
{
    let mut cells = cells_new();
    let ghost pred = |c: (i32, i32)| near(fp@, r as int, c);
    let ghost bx = box_cells(lox as int, hix as int, loz as int, hiz as int);
    if lox > hix || loz > hiz {
        proof {
            assert(bx.len() == 0);
            reveal(Seq::filter);
            assert(bx.filter(pred) =~= Seq::<(i32, i32)>::empty());
        }
        return cells;
    }
    let nz: i64 = hiz - loz + 1;
    let mut x: i64 = lox;
    while x <= hix
        invariant
            lox <= x <= hix + 1,
            loz <= hiz,
            nz == hiz - loz + 1,
            box_fits(lox as int, hix as int, loz as int, hiz as int),
            bx == box_cells(lox as int, hix as int, loz as int, hiz as int),
            pred == (|c: (i32, i32)| near(fp@, r as int, c)),
            cells_of(cells) == bx.subrange(0, (x - lox) * nz).filter(pred),
        decreases hix + 1 - x,
    {
        let mut z: i64 = loz;
        while z <= hiz
            invariant
                lox <= x <= hix,
                loz <= z <= hiz + 1,
                nz == hiz - loz + 1,
                box_fits(lox as int, hix as int, loz as int, hiz as int),
                bx == box_cells(lox as int, hix as int, loz as int, hiz as int),
                pred == (|c: (i32, i32)| near(fp@, r as int, c)),
                cells_of(cells) == bx.subrange(0, (x - lox) * nz + (z - loz)).filter(pred),
            decreases hiz + 1 - z,
        {
            let ghost k = (x - lox) * nz + (z - loz);
            proof {
                assert(0 <= k < (hix - lox + 1) * nz) by (nonlinear_arith)
                    requires
                        lox <= x <= hix,
                        0 <= z - loz < nz,
                        k == (x - lox) * nz + (z - loz),
                ;
                assert(k / (nz as int) == x - lox && k % (nz as int) == z - loz) by (nonlinear_arith)
                    requires
                        0 <= z - loz < nz,
                        0 <= x - lox,
                        k == (x - lox) * nz + (z - loz),
                ;
                lemma_filter_step(bx, k, pred);
            }
            let c: (i32, i32) = (x as i32, z as i32);
            assert(bx[k] == c);
            let inside = contains_cell(fp, c);
            let keep = if inside {
                false
            } else {
                let d = min_distance_to(c, fp);
                (d as i128) <= (r as i128)
            };
            if keep {
                proof {
                    assert((hix - lox + 1) * nz < list_room());
                }
                cells_push(&mut cells, c);
            }
            z = z + 1;
        }
        proof {
            assert((x - lox) * nz + nz == (x + 1 - lox) * nz) by (nonlinear_arith);
        }
        x = x + 1;
    }
    proof {
        assert(bx.len() == (hix - lox + 1) * nz);
        assert(bx.subrange(0, (hix + 1 - lox) * nz) == bx);
    }
    cells
}

/// Bounding box of the footprint grown by `range` on every side.
pub open spec fn grown_box(fp: Seq<(i32, i32)>, r: int) -> (int, int, int, int) {
    (min_coord(fp, true) - r, max_coord(fp, true) + r, min_coord(fp, false) - r, max_coord(fp, false) + r)
}

/// All cells within `range` Manhattan distance of the footprint, outside it,
/// scanned over the footprint's bounding box grown by `range`, x-major.
pub fn adjacent_cells(footprint: &[(i32, i32)], range: u32) -> (out: CellList)
    requires
        ({
            let b = grown_box(footprint@, (range as i32) as int);
            box_fits(b.0, b.1, b.2, b.3)
        }),
    ensures
        ({
            let b = grown_box(footprint@, (range as i32) as int);
            cells_of(out) == ring(footprint@, (range as i32) as int, b.0, b.1, b.2, b.3)
        }),
{
    let r: i32 = range as i32;
    let (lx, hx, lz, hz) = footprint_extent(footprint);
    let r64 = r as i64;
    ring_cells(footprint, r64, lx as i64 - r64, hx as i64 + r64, lz as i64 - r64, hz as i64 + r64)
}

/// The cell lies inside the `bounds` grid.
pub open spec fn within(bounds: (i32, i32), c: (i32, i32)) -> bool {
    in_grid(bounds.0 as int, bounds.1 as int, c.0 as int, c.1 as int)
}

/// The cells inside the `bounds` grid, in order.
pub fn clamp(cells: &[(i32, i32)], bounds: (i32, i32)) -> (r: CellList)
    requires
        cells@.len() < list_room(),
    ensures
        cells_of(r) == cells@.filter(|c: (i32, i32)| within(bounds, c)),
{
    let ghost pred = |c: (i32, i32)| within(bounds, c);
    let mut out = cells_new();
    let mut i: usize = 0;
    while i < cells.len()
        invariant
            0 <= i <= cells@.len(),
            cells@.len() < list_room(),
            pred == (|c: (i32, i32)| within(bounds, c)),
            cells_of(out) == cells@.subrange(0, i as int).filter(pred),
        decreases cells@.len() - i,
    {
        proof {
            lemma_filter_step(cells@, i as int, pred);
        }
        let (x, y) = cells[i];
        if x >= 0 && x < bounds.0 && y >= 0 && y < bounds.1 {
            cells_push(&mut out, (x, y));
        }
        i = i + 1;
    }
    proof {
        assert(cells@.subrange(0, cells@.len() as int) =~= cells@);
    }
    out
}

} // verus!
