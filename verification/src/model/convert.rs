//! Conversion of a voxel grid into a face-list model by greedy merging of
//! same-material quads on each of the six axis-aligned planes.

use vstd::prelude::*;
use crate::greedy::{MaskRect, greedy_merge, greedy_scan, lemma_rect_extent, rect_view};
use crate::model::schema::{Face, ModelDef, Plane};

verus! {

/// A dense voxel grid: `voxels` holds palette indices (0 = empty) with x
/// varying fastest, then y, then z. `palette_remap` maps a palette index to
/// its compact material index and `used_count` is the number of distinct
/// palette indices in use.
#[derive(Clone, Debug)]
pub struct VoxGrid {
    pub size: [u32; 3],
    pub voxels: Vec<u8>,
    pub palette_remap: [u8; 256],
    pub used_count: u8,
}

/// Largest grid extent the converter accepts: a face spanning a whole row
/// must have a texel extent (16 per voxel) that fits in `u32`.
pub open spec fn max_extent() -> int {
    0x0fff_ffff
}

impl VoxGrid {
    pub open spec fn sx(&self) -> int {
        self.size@[0] as int
    }

    pub open spec fn sy(&self) -> int {
        self.size@[1] as int
    }

    pub open spec fn sz(&self) -> int {
        self.size@[2] as int
    }

    /// One voxel per cell; extents small enough that every slice mask and
    /// every texel extent fits in `u32`.
    pub open spec fn wf(&self) -> bool {
        &&& self.voxels@.len() == self.sx() * self.sy() * self.sz()
        &&& self.sx() <= max_extent() && self.sy() <= max_extent() && self.sz() <= max_extent()
        &&& self.sx() * self.sy() <= u32::MAX
        &&& self.sy() * self.sz() <= u32::MAX
        &&& self.sx() * self.sz() <= u32::MAX
    }

    pub open spec fn spec_in_bounds(&self, x: int, y: int, z: int) -> bool {
        0 <= x < self.sx() && 0 <= y < self.sy() && 0 <= z < self.sz()
    }

    pub open spec fn spec_linearize(&self, x: int, y: int, z: int) -> int {
        x + self.sx() * (y + self.sy() * z)
    }

    /// Palette index of an in-bounds voxel.
    pub open spec fn voxel(&self, x: int, y: int, z: int) -> u8 {
        self.voxels@[self.spec_linearize(x, y, z)]
    }

    /// The cell lies in the grid and holds a voxel.
    pub open spec fn solid(&self, c: Seq<int>) -> bool {
        self.spec_in_bounds(c[0], c[1], c[2]) && self.voxel(c[0], c[1], c[2]) != 0
    }

    /// Position of `(x, y, z)` in `voxels`.
    pub fn linearize(&self, x: u32, y: u32, z: u32) -> (r: usize)
        requires
            self.wf(),
            self.spec_in_bounds(x as int, y as int, z as int),
        ensures
            r == self.spec_linearize(x as int, y as int, z as int),
            r < self.voxels@.len(),
    {
        proof {
            lemma_linear_index(self.sx(), self.sy(), self.sz(), x as int, y as int, z as int);
            let a = self.sx();
            let bc = self.sy() * self.sz();
            assert(bc <= a * bc) by (nonlinear_arith)
                requires
                    1 <= a,
                    0 <= bc,
            ;
            assert(self.sy() * z <= y + self.sy() * z);
            assert(a * (y + self.sy() * z) <= x + a * (y + self.sy() * z));
        }
        let total = self.voxels.len();
        let a = self.size[0] as usize;
        let b = self.size[1] as usize;
        assert(a == self.sx() && b == self.sy());
        let t = y as usize + b * z as usize;
        x as usize + a * t
    }

    /// The cell lies inside the grid.
    pub fn in_bounds(&self, x: i32, y: i32, z: i32) -> (r: bool)
        ensures
            r == self.spec_in_bounds(x as int, y as int, z as int),
    {
        x >= 0 && y >= 0 && z >= 0 && (x as u32) < self.size[0] && (y as u32) < self.size[1] && (z as u32)
            < self.size[2]
    }
}

pub proof fn lemma_linear_index(a: int, b: int, c: int, x: int, y: int, z: int)
    requires
        0 <= x < a,
        0 <= y < b,
        0 <= z < c,
    ensures
        0 <= y + b * z < b * c,
        0 <= x + a * (y + b * z) < a * (b * c),
        a * (b * c) == a * b * c,
{
    assert(0 <= y + b * z < b * c) by (nonlinear_arith)
        requires
            0 <= y < b,
            0 <= z < c,
    ;
    let t = y + b * z;
    assert(0 <= x + a * t < a * (b * c)) by (nonlinear_arith)
        requires
            0 <= x < a,
            0 <= t < b * c,
    ;
    assert(a * (b * c) == a * b * c) by (nonlinear_arith);
}

/// The six face planes in emission order with their (normal, u, v) axes and
/// the sign of the normal.
pub open spec fn spec_plane_entry(k: int) -> (Plane, int, int, int, int) {
    if k == 0 {
        (Plane::PosX, 0, 1, 2, 1)
    } else if k == 1 {
        (Plane::NegX, 0, 1, 2, -1)
    } else if k == 2 {
        (Plane::PosY, 1, 2, 0, 1)
    } else if k == 3 {
        (Plane::NegY, 1, 2, 0, -1)
    } else if k == 4 {
        (Plane::PosZ, 2, 0, 1, 1)
    } else {
        (Plane::NegZ, 2, 0, 1, -1)
    }
}

fn plane_entry(k: usize) -> (r: (Plane, usize, usize, usize, i32))
    requires
        k < 6,
    ensures
        (r.0, r.1 as int, r.2 as int, r.3 as int, r.4 as int) == spec_plane_entry(k as int),
{
    if k == 0 {
        (Plane::PosX, 0, 1, 2, 1)
    } else if k == 1 {
        (Plane::NegX, 0, 1, 2, -1)
    } else if k == 2 {
        (Plane::PosY, 1, 2, 0, 1)
    } else if k == 3 {
        (Plane::NegY, 1, 2, 0, -1)
    } else if k == 4 {
        (Plane::PosZ, 2, 0, 1, 1)
    } else {
        (Plane::NegZ, 2, 0, 1, -1)
    }
}

/// The point with coordinate `n` on axis `na`, `u` on `ua` and `v` on `va`.
pub open spec fn place3(na: int, ua: int, va: int, n: int, u: int, v: int) -> Seq<int> {
    Seq::new(3, |a: int| if a == na { n } else if a == ua { u } else { v })
}

/// Mask cell `(u, v)` of slice `n` of plane `k`: the voxel's palette index
/// when the voxel is solid and its neighbour on the normal side is not.
pub open spec fn exposed(g: VoxGrid, k: int, n: int, u: int, v: int) -> Option<u8> {
    let (_p, na, ua, va, sign) = spec_plane_entry(k);
    let c = place3(na, ua, va, n, u, v);
    let nb = place3(na, ua, va, n + sign, u, v);
    if g.solid(c) && !g.solid(nb) {
        Some(g.voxel(c[0], c[1], c[2]))
    } else {
        None
    }
}

pub open spec fn axis_size(g: VoxGrid, a: int) -> int {
    g.size@[a] as int
}

/// The exposure mask of slice `n` of plane `k`, row-major over (u, v).
pub open spec fn slice_mask(g: VoxGrid, k: int, n: int) -> Seq<Option<u8>> {
    let (_p, _na, ua, va, _s) = spec_plane_entry(k);
    let us = axis_size(g, ua);
    Seq::new((us * axis_size(g, va)) as nat, |i: int| exposed(g, k, n, i % us, i / us))
}

/// The face produced for a merged rectangle of slice `n` of plane `k`.
pub open spec fn rect_face(g: VoxGrid, k: int, n: int, r: (int, int, int, int, u8)) -> Face {
    let (p, _na, _ua, _va, sign) = spec_plane_entry(k);
    Face {
        plane: p,
        depth: (n + if sign > 0 { 1int } else { 0 }) as i32,
        geo_min: [r.0 as u32, r.1 as u32],
        geo_size: [r.2 as u32, r.3 as u32],
        uv_min: [0, 0],
        uv_size: [(r.2 * 16) as u32, (r.3 * 16) as u32],
        material: g.palette_remap@[r.4 as int] as u16,
    }
}

/// The faces of slice `n` of plane `k`, in greedy scan order.
pub open spec fn slice_faces(g: VoxGrid, k: int, n: int) -> Seq<Face> {
    let (_p, _na, ua, va, _s) = spec_plane_entry(k);
    greedy_scan(slice_mask(g, k, n), axis_size(g, ua), axis_size(g, va), 0, 0).map_values(
        |r: (int, int, int, int, u8)| rect_face(g, k, n, r),
    )
}

/// Faces of slices `0..upto` of plane `k`.
pub open spec fn plane_faces(g: VoxGrid, k: int, upto: int) -> Seq<Face>
    decreases upto,
{
    if upto <= 0 {
        Seq::empty()
    } else {
        plane_faces(g, k, upto - 1) + slice_faces(g, k, upto - 1)
    }
}

/// Faces of planes `0..upto`, each plane over all its slices.
pub open spec fn grid_faces(g: VoxGrid, upto: int) -> Seq<Face>
    decreases upto,
{
    if upto <= 0 {
        Seq::empty()
    } else {
        let (_p, na, _ua, _va, _s) = spec_plane_entry(upto - 1);
        grid_faces(g, upto - 1) + plane_faces(g, upto - 1, axis_size(g, na))
    }
}

/// The exposure mask of one slice.
fn build_slice_mask(grid: &VoxGrid, k: usize, n_idx: u32) -> (mask: Vec<Option<u8>>)
    requires
        grid.wf(),
        k < 6,
        n_idx < axis_size(*grid, spec_plane_entry(k as int).1),
    ensures
        mask@ == slice_mask(*grid, k as int, n_idx as int),
{
    let (_plane, n_axis, u_axis, v_axis, n_sign) = plane_entry(k);
    let u_size = grid.size[u_axis];
    let v_size = grid.size[v_axis];
    let ghost us = u_size as int;
    let ghost target = slice_mask(*grid, k as int, n_idx as int);
    proof {
        lemma_axes_product(*grid, k as int);
    }
    let mut mask: Vec<Option<u8>> = Vec::new();
    let mut v: u32 = 0;
    while v < v_size
        invariant
            grid.wf(),
            k < 6,
            (_plane, n_axis as int, u_axis as int, v_axis as int, n_sign as int) == spec_plane_entry(k as int),
            n_idx < axis_size(*grid, n_axis as int),
            u_size == grid.size@[u_axis as int],
            v_size == grid.size@[v_axis as int],
            us == u_size,
            us * v_size <= u32::MAX,
            target == slice_mask(*grid, k as int, n_idx as int),
            0 <= v <= v_size,
            mask@ == target.subrange(0, v * us),
        decreases v_size - v,
    {
        let mut u: u32 = 0;
        while u < u_size
            invariant
                grid.wf(),
                k < 6,
                (_plane, n_axis as int, u_axis as int, v_axis as int, n_sign as int) == spec_plane_entry(k as int),
                n_idx < axis_size(*grid, n_axis as int),
                u_size == grid.size@[u_axis as int],
                v_size == grid.size@[v_axis as int],
                us == u_size,
                us * v_size <= u32::MAX,
                target == slice_mask(*grid, k as int, n_idx as int),
                0 <= v < v_size,
                0 <= u <= u_size,
                mask@ == target.subrange(0, v * us + u),
            decreases u_size - u,
        {
            let ghost i = v * us + u;
            proof {
                crate::greedy::lemma_mask_index(us, v_size as int, u as int, v as int);
                assert(i == u + v * us) by (nonlinear_arith)
                    requires
                        i == v * us + u,
                ;
                assert(target[i] == exposed(*grid, k as int, n_idx as int, u as int, v as int));
                assert(target.subrange(0, i + 1) == target.subrange(0, i).push(target[i]));
            }
            let cell = exposed_cell(grid, n_axis, u_axis, v_axis, n_sign, n_idx, u, v, k);
            mask.push(cell);
            u = u + 1;
        }
        proof {
            assert(v * us + us == (v + 1) * us) by (nonlinear_arith);
        }
        v = v + 1;
    }
    proof {
        assert(target.len() == us * v_size);
        assert(v_size * us == us * v_size) by (nonlinear_arith);
        assert(target.subrange(0, target.len() as int) == target);
    }
    mask
}

pub proof fn lemma_axes_product(g: VoxGrid, k: int)
    requires
        g.wf(),
        0 <= k < 6,
    ensures
        axis_size(g, spec_plane_entry(k).2) * axis_size(g, spec_plane_entry(k).3) <= u32::MAX,
        axis_size(g, spec_plane_entry(k).2) <= max_extent(),
        axis_size(g, spec_plane_entry(k).3) <= max_extent(),
        axis_size(g, spec_plane_entry(k).1) <= max_extent(),
{
    let (_p, na, ua, va, _s) = spec_plane_entry(k);
    if ua == 2 && va == 0 {
        assert(g.sz() * g.sx() == g.sx() * g.sz()) by (nonlinear_arith);
    }
}

/// Mask value of cell `(u, v)` of slice `n_idx`.
fn exposed_cell(
    grid: &VoxGrid,
    n_axis: usize,
    u_axis: usize,
    v_axis: usize,
    n_sign: i32,
    n_idx: u32,
    u: u32,
    v: u32,
    k: usize,
) -> (r: Option<u8>)
    requires
        grid.wf(),
        k < 6,
        (spec_plane_entry(k as int).0, n_axis as int, u_axis as int, v_axis as int, n_sign as int) == spec_plane_entry(k as int),
        n_idx < axis_size(*grid, n_axis as int),
        u < axis_size(*grid, u_axis as int),
        v < axis_size(*grid, v_axis as int),
    ensures
        r == exposed(*grid, k as int, n_idx as int, u as int, v as int),
{
    let ghost c = place3(n_axis as int, u_axis as int, v_axis as int, n_idx as int, u as int, v as int);
    let mut coord = [0i32; 3];
    coord[n_axis] = n_idx as i32;
    coord[u_axis] = u as i32;
    coord[v_axis] = v as i32;
    assert(coord@.map_values(|x: i32| x as int) =~= c);
    let this_voxel = grid.voxels[grid.linearize(coord[0] as u32, coord[1] as u32, coord[2] as u32)];
    if this_voxel == 0 {
        return None;
    }
    let mut n_coord = coord;
    n_coord[n_axis] = n_coord[n_axis] + n_sign;
    let ghost nb = place3(n_axis as int, u_axis as int, v_axis as int, n_idx + n_sign, u as int, v as int);
    assert(n_coord@.map_values(|x: i32| x as int) =~= nb);
    let neighbor_empty = !grid.in_bounds(n_coord[0], n_coord[1], n_coord[2])
        || grid.voxels[grid.linearize(n_coord[0] as u32, n_coord[1] as u32, n_coord[2] as u32)] == 0;
    if neighbor_empty {
        Some(this_voxel)
    } else {
        None
    }
}

/// All faces of the grid: for each plane in turn (+X, -X, +Y, -Y, +Z, -Z) and
/// each slice along its normal, the greedy merge of the slice's exposed voxel
/// faces. A face lies at the far side of its voxel for positive planes and at
/// the near side for negative ones, has a default texel extent of 16 per voxel
/// and takes the compact material of the palette index it covers.
fn extract_faces(grid: &VoxGrid) -> (faces: Vec<Face>)
    requires
        grid.wf(),
    ensures
        faces@ == grid_faces(*grid, 6),
{
    let mut faces: Vec<Face> = Vec::new();
    let mut k: usize = 0;
    while k < 6
        invariant
            grid.wf(),
            0 <= k <= 6,
            faces@ == grid_faces(*grid, k as int),
        decreases 6 - k,
    {
        let (plane, n_axis, u_axis, v_axis, n_sign) = plane_entry(k);
        let n_size = grid.size[n_axis];
        let u_size = grid.size[u_axis];
        let v_size = grid.size[v_axis];
        proof {
            lemma_axes_product(*grid, k as int);
        }
        let ghost base = faces@;
        let mut n_idx: u32 = 0;
        while n_idx < n_size
            invariant
                grid.wf(),
                0 <= k < 6,
                (plane, n_axis as int, u_axis as int, v_axis as int, n_sign as int) == spec_plane_entry(k as int),
                n_size == grid.size@[n_axis as int],
                u_size == grid.size@[u_axis as int],
                v_size == grid.size@[v_axis as int],
                base == grid_faces(*grid, k as int),
                0 <= n_idx <= n_size,
                faces@ == base + plane_faces(*grid, k as int, n_idx as int),
            decreases n_size - n_idx,
        {
            proof {
                lemma_axes_product(*grid, k as int);
            }
            let mask = build_slice_mask(grid, k, n_idx);
            let rects = greedy_merge(mask, u_size, v_size);
            let ghost sr = greedy_scan(
                slice_mask(*grid, k as int, n_idx as int),
                u_size as int,
                v_size as int,
                0,
                0,
            );
            assert(rects@.map_values(|r: MaskRect| rect_view(r)) == sr);
            let ghost before = faces@;
            let mut j: usize = 0;
            while j < rects.len()
                invariant
                    grid.wf(),
                    0 <= k < 6,
                    (plane, n_axis as int, u_axis as int, v_axis as int, n_sign as int) == spec_plane_entry(k as int),
                    u_size == grid.size@[u_axis as int],
                    v_size == grid.size@[v_axis as int],
                    n_idx < n_size,
                    n_size == grid.size@[n_axis as int],
                    rects@.map_values(|r: MaskRect| rect_view(r)) == sr,
                    sr == greedy_scan(slice_mask(*grid, k as int, n_idx as int), u_size as int, v_size as int, 0, 0),
                    0 <= j <= rects@.len(),
                    faces@ == before + sr.subrange(0, j as int).map_values(
                        |r: (int, int, int, int, u8)| rect_face(*grid, k as int, n_idx as int, r),
                    ),
                decreases rects@.len() - j,
            {
                let r = rects[j];
                proof {
                    assert(sr.len() == rects@.len());
                    assert(j < sr.len());
                    assert(rect_view(r) == sr[j as int]);
                    lemma_rect_extent(slice_mask(*grid, k as int, n_idx as int), u_size as int, v_size as int, j as int);
                    lemma_axes_product(*grid, k as int);
                }
                let depth: i32 = if n_sign > 0 {
                    n_idx as i32 + 1
                } else {
                    n_idx as i32
                };
                let compact = grid.palette_remap[r.value as usize];
                let face = Face {
                    plane,
                    depth,
                    geo_min: [r.u, r.v],
                    geo_size: [r.w, r.h],
                    uv_min: [0, 0],
                    uv_size: [r.w * 16, r.h * 16],
                    material: compact as u16,
                };
                proof {
                    assert(face == rect_face(*grid, k as int, n_idx as int, sr[j as int]));
                    assert(sr.subrange(0, j + 1) == sr.subrange(0, j as int).push(sr[j as int]));
                }
                faces.push(face);
                proof {
                    assert(faces@ =~= before + sr.subrange(0, j + 1).map_values(
                        |r: (int, int, int, int, u8)| rect_face(*grid, k as int, n_idx as int, r),
                    ));
                }
                j = j + 1;
            }
            proof {
                assert(sr.subrange(0, sr.len() as int) == sr);
                assert(faces@ =~= base + plane_faces(*grid, k as int, n_idx + 1));
            }
            n_idx = n_idx + 1;
        }
        k = k + 1;
    }
    faces
}

/// Decimal digits of `n`, most significant first, without leading zeros.
pub open spec fn decimal(n: nat) -> Seq<char>
    decreases n,
{
    if n < 10 {
        seq![(48 + n) as char]
    } else {
        decimal(n / 10).push((48 + n % 10) as char)
    }
}

/// Placeholder name of compact material `i`: `__mat_` followed by `i` in decimal.
pub open spec fn placeholder_name(i: nat) -> Seq<char> {
    seq!['_', '_', 'm', 'a', 't', '_'] + decimal(i)
}

/// The decimal digit `d` as a one-character string.
fn digit_str(d: u8) -> (r: &'static str)
    requires
        d < 10,
    ensures
        r@ == seq![(48 + d) as char],
{
    proof {
        reveal_strlit("0");
        reveal_strlit("1");
        reveal_strlit("2");
        reveal_strlit("3");
        reveal_strlit("4");
        reveal_strlit("5");
        reveal_strlit("6");
        reveal_strlit("7");
        reveal_strlit("8");
        reveal_strlit("9");
    }
    match d {
        0 => "0",
        1 => "1",
        2 => "2",
        3 => "3",
        4 => "4",
        5 => "5",
        6 => "6",
        7 => "7",
        8 => "8",
        _ => "9",
    }
}

/// The placeholder name of compact material `i`: `__mat_` followed by the
/// decimal digits of `i`.
fn placeholder_material_name(i: u8) -> (s: String)
    ensures
        s@ == placeholder_name(i as nat),
{
    proof {
        reveal_strlit("__mat_");
        reveal_with_fuel(decimal, 3);
    }
    let mut s = String::from_str("__mat_");
    if i >= 100 {
        s.append(digit_str(i / 100));
    }
    if i >= 10 {
        s.append(digit_str((i / 10) % 10));
    }
    s.append(digit_str(i % 10));
    proof {
        let n = i as nat;
        if n >= 100 {
            assert(decimal(n / 10) == decimal(n / 100).push((48 + (n / 10) % 10) as char));
            assert(n / 100 < 10);
        } else if n >= 10 {
            assert(n / 10 < 10);
        }
    }
    s
}

/// Build a face-list model from a voxel grid. The material table holds one
/// placeholder name per compact material (`__mat_0`, `__mat_1`, ...), for the
/// artist to rename; the faces are those of `extract_faces`.
pub fn vox_to_model_def(name: &str, grid: &VoxGrid) -> (r: ModelDef)
    requires
        grid.wf(),
    ensures
        r.name@ == name@,
        r.materials@.len() == grid.used_count,
        forall|i: int| 0 <= i < grid.used_count ==> #[trigger] r.materials@[i]@ == placeholder_name(i as nat),
        r.faces@ == grid_faces(*grid, 6),
{
    let mut materials: Vec<String> = Vec::new();
    let mut i: u8 = 0;
    while i < grid.used_count
        invariant
            0 <= i <= grid.used_count,
            materials@.len() == i,
            forall|j: int| 0 <= j < i ==> #[trigger] materials@[j]@ == placeholder_name(j as nat),
        decreases grid.used_count - i,
    {
        materials.push(placeholder_material_name(i));
        i = i + 1;
    }
    let faces = extract_faces(grid);
    ModelDef { name: name.to_owned(), materials, faces }
}

} // verus!
