//! Occupancy map of the build grid.

use vstd::prelude::*;

verus! {

/// Whether a grid cell is free to build on or walk through.
#[derive(Clone, Copy, PartialEq, Eq, Debug, Structural)]
pub enum GridOccupancy {
    Empty,
    Occupied,
}

impl Default for GridOccupancy {
    fn default() -> (r: Self)
        ensures
            r == GridOccupancy::Empty,
    {
        GridOccupancy::Empty
    }
}

/// Row-major occupancy map of a `width` x `height` grid.
#[derive(Clone)]
pub struct WorldGridMap {
    pub width: i32,
    pub height: i32,
    pub occupancy: Vec<GridOccupancy>,
}

/// The cell `(x, z)` lies inside a `width` x `height` grid.
pub open spec fn in_grid(width: int, height: int, x: int, z: int) -> bool {
    0 <= x < width && 0 <= z < height
}

/// Row-major position of the cell `(x, z)` in a grid `width` cells wide.
pub open spec fn cell_index(width: int, x: int, z: int) -> int {
    z * width + x
}

/// Inside the grid, the row-major position is in range.
pub proof fn lemma_cell_index_bounds(width: int, height: int, x: int, z: int)
    requires
        in_grid(width, height, x, z),
    ensures
        0 <= cell_index(width, x, z) < width * height,
{
    assert(z * width + x < width * height) by (nonlinear_arith)
        requires
            0 <= x < width,
            0 <= z < height,
    ;
    assert(0 <= z * width) by (nonlinear_arith)
        requires
            0 <= z,
            0 <= width,
    ;
}

/// Inside the grid, distinct cells have distinct row-major positions.
pub proof fn lemma_cell_index_injective(width: int, height: int, x1: int, z1: int, x2: int, z2: int)
    requires
        in_grid(width, height, x1, z1),
        in_grid(width, height, x2, z2),
        cell_index(width, x1, z1) == cell_index(width, x2, z2),
    ensures
        x1 == x2 && z1 == z2,
{
    if z1 < z2 {
        assert(z1 * width + width <= z2 * width) by (nonlinear_arith)
            requires
                z1 < z2,
                0 <= width,
        ;
    } else if z2 < z1 {
        assert(z2 * width + width <= z1 * width) by (nonlinear_arith)
            requires
                z2 < z1,
                0 <= width,
        ;
    }
}

/// `after` is `before` with every in-grid cell of `cells` set to `occ`.
pub open spec fn filled(after: WorldGridMap, before: WorldGridMap, cells: Seq<(i32, i32)>, occ: GridOccupancy) -> bool {
    &&& after.wf()
    &&& after.width == before.width
    &&& after.height == before.height
    &&& (before.width < 0 && before.height < 0) ==> after.occupancy@ == before.occupancy@
    &&& forall|a: int, b: int|
        #![trigger after.spec_get(a, b)]
        after.spec_get(a, b) == if before.in_bounds(a, b) && cells.contains((a as i32, b as i32)) {
            Some(occ)
        } else {
            before.spec_get(a, b)
        }
}

impl WorldGridMap {
    /// The occupancy vector has one entry per cell.
    pub open spec fn wf(&self) -> bool {
        &&& 0 <= self.width * self.height <= i32::MAX
        &&& self.occupancy@.len() == self.width * self.height
    }

    pub open spec fn in_bounds(&self, x: int, z: int) -> bool {
        in_grid(self.width as int, self.height as int, x, z)
    }

    /// Occupancy of an in-bounds cell.
    pub open spec fn cell(&self, x: int, z: int) -> GridOccupancy {
        self.occupancy@[cell_index(self.width as int, x, z)]
    }

    /// What `get_occupancy` reports: the cell's state inside the grid, `None` outside.
    pub open spec fn spec_get(&self, x: int, z: int) -> Option<GridOccupancy> {
        if self.in_bounds(x, z) {
            Some(self.cell(x, z))
        } else {
            None
        }
    }

    /// A cell is walkable when it lies inside the grid and is empty.
    pub open spec fn spec_walkable(&self, x: int, z: int) -> bool {
        self.spec_get(x, z) == Some(GridOccupancy::Empty)
    }

    /// Every cell of `footprint` lies in the grid and is empty.
    pub open spec fn spec_area_empty(&self, footprint: Seq<(i32, i32)>) -> bool {
        forall|i: int|
            0 <= i < footprint.len() ==> #[trigger] self.spec_get(footprint[i].0 as int, footprint[i].1 as int)
                == Some(GridOccupancy::Empty)
    }

    /// A grid of the given size with every cell empty.
    pub fn new(width: i32, height: i32) -> (r: Self)
        requires
            0 <= width * height <= i32::MAX,
        ensures
            r.wf(),
            r.width == width,
            r.height == height,
            forall|x: int, z: int| r.in_bounds(x, z) ==> #[trigger] r.cell(x, z) == GridOccupancy::Empty,
    {
        let size = (width * height) as usize;
        let mut occupancy: Vec<GridOccupancy> = Vec::with_capacity(size);
        let mut i: usize = 0;
        while i < size
            invariant
                i <= size,
                occupancy@.len() == i,
                forall|j: int| 0 <= j < i ==> occupancy@[j] == GridOccupancy::Empty,
            decreases size - i,
        {
            occupancy.push(GridOccupancy::Empty);
            i = i + 1;
        }
        let r = WorldGridMap { width, height, occupancy };
        assert forall|x: int, z: int| r.in_bounds(x, z) implies #[trigger] r.cell(x, z) == GridOccupancy::Empty by {
            lemma_cell_index_bounds(width as int, height as int, x, z);
        }
        r
    }

    /// Row-major position of `(x, z)`, or `None` outside the grid.
    fn index(&self, x: i32, z: i32) -> (r: Option<usize>)
        requires
            self.wf(),
        ensures
            self.in_bounds(x as int, z as int) ==> r == Some(cell_index(self.width as int, x as int, z as int) as usize),
            self.in_bounds(x as int, z as int) ==> 0 <= cell_index(self.width as int, x as int, z as int) < self.occupancy@.len(),
            !self.in_bounds(x as int, z as int) ==> r is None,
    {
        if x >= 0 && x < self.width && z >= 0 && z < self.height {
            proof {
                lemma_cell_index_bounds(self.width as int, self.height as int, x as int, z as int);
                assert(0 <= z * self.width) by (nonlinear_arith)
                    requires
                        0 <= z,
                        0 <= self.width,
                ;
            }
            Some((z * self.width + x) as usize)
        } else {
            None
        }
    }

    /// Inside the grid and empty.
    pub fn is_walkable(&self, x: i32, z: i32) -> (r: bool)
        requires
            self.wf(),
        ensures
            r == self.spec_walkable(x as int, z as int),
    {
        match self.index(x, z) {
            Some(i) => match self.occupancy[i] {
                GridOccupancy::Empty => true,
                GridOccupancy::Occupied => false,
            },
            None => false,
        }
    }

    /// Write `occ` into the cell; a cell outside the grid is ignored.
    pub fn set_occupancy(&mut self, x: i32, z: i32, occ: GridOccupancy)
        requires
            old(self).wf(),
        ensures
            filled(*final(self), *old(self), seq![(x, z)], occ),
            forall|a: int, b: int|
                #![trigger final(self).spec_get(a, b)]
                final(self).spec_get(a, b) == if a == x && b == z && old(self).in_bounds(a, b) {
                    Some(occ)
                } else {
                    old(self).spec_get(a, b)
                },
    {
        let ghost pre = *self;
        proof {
            assert forall|a: int, b: int| seq![(x, z)].contains((a as i32, b as i32)) && pre.in_bounds(a, b) <==> (a == x && b == z && pre.in_bounds(a, b)) by {
                if a == x && b == z {
                    assert(seq![(x, z)][0] == (a as i32, b as i32));
                }
            }
        }
        if let Some(i) = self.index(x, z) {
            self.occupancy.set(i, occ);
            proof {
                assert forall|a: int, b: int| #![trigger self.spec_get(a, b)] self.in_bounds(a, b) && !(a == x && b == z)
                    implies self.cell(a, b) == pre.cell(a, b) by {
                    lemma_cell_index_bounds(self.width as int, self.height as int, a, b);
                    if cell_index(self.width as int, a, b) == cell_index(self.width as int, x as int, z as int) {
                        lemma_cell_index_injective(self.width as int, self.height as int, a, b, x as int, z as int);
                    }
                }
            }
        }
    }

    /// The cell's state, or `None` outside the grid.
    pub fn get_occupancy(&self, x: i32, z: i32) -> (r: Option<GridOccupancy>)
        requires
            self.wf(),
        ensures
            r == self.spec_get(x as int, z as int),
    {
        match self.index(x, z) {
            Some(i) => Some(self.occupancy[i]),
            None => None,
        }
    }

    /// Every cell of the footprint lies in the grid and is empty.
    pub fn is_area_empty(&self, footprint: &[(i32, i32)]) -> (r: bool)
        requires
            self.wf(),
        ensures
            r == self.spec_area_empty(footprint@),
    {
        let mut i: usize = 0;
        while i < footprint.len()
            invariant
                self.wf(),
                i <= footprint@.len(),
                forall|j: int| 0 <= j < i ==> #[trigger] self.spec_get(footprint@[j].0 as int, footprint@[j].1 as int)
                    == Some(GridOccupancy::Empty),
            decreases footprint@.len() - i,
        {
            let (x, z) = footprint[i];
            match self.get_occupancy(x, z) {
                Some(GridOccupancy::Empty) => {},
                _ => {
                    return false;
                },
            }
            i = i + 1;
        }
        true
    }

    /// Write `occ` into every in-grid cell of the footprint.
    pub fn fill_area(&mut self, footprint: &[(i32, i32)], occ: GridOccupancy)
        requires
            old(self).wf(),
        ensures
            filled(*final(self), *old(self), footprint@, occ),
    {
        let ghost pre = *self;
        let mut i: usize = 0;
        while i < footprint.len()
            invariant
                self.wf(),
                self.width == pre.width,
                self.height == pre.height,
                (pre.width < 0 && pre.height < 0) ==> self.occupancy@ == pre.occupancy@,
                i <= footprint@.len(),
                forall|a: int, b: int|
                    #![trigger self.spec_get(a, b)]
                    self.spec_get(a, b) == if pre.in_bounds(a, b) && footprint@.subrange(0, i as int).contains(
                        (a as i32, b as i32),
                    ) {
                        Some(occ)
                    } else {
                        pre.spec_get(a, b)
                    },
            decreases footprint@.len() - i,
        {
            let (x, z) = footprint[i];
            let ghost mid = *self;
            self.set_occupancy(x, z, occ);
            proof {
                assert forall|a: int, b: int| #![trigger self.spec_get(a, b)]
                    self.spec_get(a, b) == if pre.in_bounds(a, b) && footprint@.subrange(0, i + 1).contains(
                        (a as i32, b as i32),
                    ) {
                        Some(occ)
                    } else {
                        pre.spec_get(a, b)
                    } by {
                    let s0 = footprint@.subrange(0, i as int);
                    let s1 = footprint@.subrange(0, i + 1);
                    assert(s1 == s0.push((x, z)));
                    assert(mid.spec_get(a, b) == self.spec_get(a, b) || (a == x && b == z));
                    if pre.in_bounds(a, b) {
                        assert(a == a as i32 && b == b as i32);
                        if s0.contains((a as i32, b as i32)) {
                            assert(s1.contains((a as i32, b as i32)));
                        }
                        if a == x && b == z {
                            assert(s1[i as int] == (a as i32, b as i32));
                        }
                    }
                }
            }
            i = i + 1;
        }
        assert(footprint@.subrange(0, footprint@.len() as int) == footprint@);
    }

    /// Mark every in-grid cell of the footprint empty.
    pub fn clear_area(&mut self, footprint: &[(i32, i32)])
        requires
            old(self).wf(),
        ensures
            filled(*final(self), *old(self), footprint@, GridOccupancy::Empty),
    {
        self.fill_area(footprint, GridOccupancy::Empty);
    }
}

/// A cell reads back what was last written to it, and writing it leaves
/// every other cell as it was.
pub proof fn law_read_after_write(before: WorldGridMap, after: WorldGridMap, x: i32, z: i32, occ: GridOccupancy)
    requires
        before.wf(),
        before.in_bounds(x as int, z as int),
        filled(after, before, seq![(x, z)], occ),
    ensures
        after.spec_get(x as int, z as int) == Some(occ),
        forall|a: int, b: int| !(a == x && b == z) ==> #[trigger] after.spec_get(a, b) == before.spec_get(a, b),
{
    assert(seq![(x, z)][0] == (x, z));
    assert forall|a: int, b: int| !(a == x && b == z) implies #[trigger] after.spec_get(a, b) == before.spec_get(a, b) by {
        if before.in_bounds(a, b) && seq![(x, z)].contains((a as i32, b as i32)) {
            let k = choose|k: int| 0 <= k < 1 && seq![(x, z)][k] == (a as i32, b as i32);
            assert(seq![(x, z)][k] == (x, z));
        }
    }
}

/// A cell is walkable exactly when it lies in the grid and is empty.
pub proof fn law_walkable_iff_empty(m: WorldGridMap, x: int, z: int)
    ensures
        m.spec_walkable(x, z) <==> (m.in_bounds(x, z) && m.cell(x, z) == GridOccupancy::Empty),
{
}

/// Filling an in-grid footprint makes it non-empty (when it has a cell);
/// clearing it makes it empty.
pub proof fn law_fill_and_clear_area(before: WorldGridMap, after: WorldGridMap, fp: Seq<(i32, i32)>, occ: GridOccupancy)
    requires
        before.wf(),
        forall|k: int| 0 <= k < fp.len() ==> before.in_bounds((#[trigger] fp[k]).0 as int, fp[k].1 as int),
        filled(after, before, fp, occ),
    ensures
        occ == GridOccupancy::Occupied && fp.len() > 0 ==> !after.spec_area_empty(fp),
        occ == GridOccupancy::Empty ==> after.spec_area_empty(fp),
{
    assert forall|k: int| 0 <= k < fp.len() implies #[trigger] after.spec_get(fp[k].0 as int, fp[k].1 as int) == Some(occ) by {
        assert(fp.contains(fp[k]));
        assert(((fp[k].0 as int) as i32, (fp[k].1 as int) as i32) == fp[k]);
    }
    if occ == GridOccupancy::Occupied && fp.len() > 0 {
        assert(after.spec_get(fp[0].0 as int, fp[0].1 as int) == Some(GridOccupancy::Occupied));
    }
}

/// Clearing a footprint that was empty and then filled restores the map:
/// demolishing undoes placing, and the footprint reads empty again.
pub proof fn law_clear_undoes_fill(before: WorldGridMap, mid: WorldGridMap, after: WorldGridMap, fp: Seq<(i32, i32)>)
    requires
        before.wf(),
        before.spec_area_empty(fp),
        filled(mid, before, fp, GridOccupancy::Occupied),
        filled(after, mid, fp, GridOccupancy::Empty),
    ensures
        after.width == before.width,
        after.height == before.height,
        after.occupancy@ == before.occupancy@,
        after.spec_area_empty(fp),
        forall|a: int, b: int| #[trigger] after.spec_get(a, b) == before.spec_get(a, b),
{
    assert forall|a: int, b: int| #[trigger] after.spec_get(a, b) == before.spec_get(a, b) by {
        assert(mid.spec_get(a, b) == if before.in_bounds(a, b) && fp.contains((a as i32, b as i32)) {
            Some(GridOccupancy::Occupied)
        } else {
            before.spec_get(a, b)
        });
        if before.in_bounds(a, b) && fp.contains((a as i32, b as i32)) {
            let k = choose|k: int| 0 <= k < fp.len() && fp[k] == (a as i32, b as i32);
            assert(before.spec_get(fp[k].0 as int, fp[k].1 as int) == Some(GridOccupancy::Empty));
        }
    }
    assert forall|i: int| 0 <= i < fp.len() implies #[trigger] after.spec_get(fp[i].0 as int, fp[i].1 as int)
        == Some(GridOccupancy::Empty) by {
        assert(before.spec_get(fp[i].0 as int, fp[i].1 as int) == Some(GridOccupancy::Empty));
    }
    lemma_same_cells_same_vector(before, after);
}

/// Two well-formed maps of one size that read the same everywhere hold the
/// same occupancy vector.
pub proof fn lemma_same_cells_same_vector(m1: WorldGridMap, m2: WorldGridMap)
    requires
        m1.wf(),
        m2.wf(),
        m1.width == m2.width,
        m1.height == m2.height,
        forall|a: int, b: int| #[trigger] m1.spec_get(a, b) == m2.spec_get(a, b),
        (m1.width < 0 && m1.height < 0) ==> m1.occupancy@ == m2.occupancy@,
    ensures
        m1.occupancy@ == m2.occupancy@,
{
    let w = m1.width as int;
    let h = m1.height as int;
    if w >= 0 && h >= 0 && w * h > 0 {
        assert(w > 0) by (nonlinear_arith)
            requires
                w >= 0,
                h >= 0,
                w * h > 0,
        ;
        assert forall|i: int| 0 <= i < m1.occupancy@.len() implies m1.occupancy@[i] == m2.occupancy@[i] by {
            let x = i % w;
            let z = i / w;
            assert(0 <= x < w && 0 <= z < h && cell_index(w, x, z) == i) by (nonlinear_arith)
                requires
                    w > 0,
                    0 <= i < w * h,
                    x == i % w,
                    z == i / w,
            ;
            assert(m1.spec_get(x, z) == m2.spec_get(x, z));
        }
        assert(m1.occupancy@ =~= m2.occupancy@);
    } else if !(w < 0 && h < 0) {
        assert(w * h <= 0) by (nonlinear_arith)
            requires
                !(w >= 0 && h >= 0 && w * h > 0),
                !(w < 0 && h < 0),
        ;
        assert(m1.occupancy@ =~= m2.occupancy@);
    }
}

} // verus!
