//! MagicaVoxel to world coordinate remap.
//!
//! MagicaVoxel is right-handed Z-up (+Y points into the model); the world is
//! right-handed Y-up. The cyclic permutation MV (x, y, z) -> world (x, z, y)
//! maps one onto the other without a mirror. Each axis also gains a one-voxel
//! empty border so that the mesher emits the outer skin of the model.

use vstd::prelude::*;
use crate::vox::mesh::{Shape3, spec_count, spec_in_bounds, spec_linearize, u32s_as_ints};

verus! {

/// A voxel of a MagicaVoxel model: its coordinates and palette index.
#[derive(Clone, Copy, Debug, PartialEq, Eq, Structural)]
pub struct VoxVoxel {
    pub x: u8,
    pub y: u8,
    pub z: u8,
    pub i: u8,
}

/// A MagicaVoxel model: its size `[x, y, z]` and voxel list.
#[derive(Clone, Debug)]
pub struct VoxModel {
    pub size: [u32; 3],
    pub voxels: Vec<VoxVoxel>,
}

/// Why a model could not be remapped.
#[derive(Clone, Copy, Debug, PartialEq, Eq)]
pub enum RemapError {
    /// The model has a zero-sized dimension.
    EmptyModel,
    /// A voxel lies outside the model's declared size.
    OutOfBounds { coord: [u32; 3], size: [u32; 3] },
}

/// The remapped voxel grid, ready for the mesher.
#[derive(Clone, Debug)]
pub struct RemappedVoxels {
    pub voxels: Vec<u8>,
    pub shape: Shape3,
    /// World-space dimensions including the one-voxel border on each side.
    pub size_units: [u32; 3],
}

/// Padded world-space size of a model: MV (x, y, z) becomes (x, z, y), plus 2.
pub open spec fn padded_size(m: [u32; 3]) -> Seq<u32> {
    seq![(m[0] + 2) as u32, (m[2] + 2) as u32, (m[1] + 2) as u32]
}

/// World-space cell of a voxel, shifted by the border.
pub open spec fn voxel_cell(v: VoxVoxel) -> Seq<int> {
    seq![v.x as int + 1, v.z as int + 1, v.y as int + 1]
}

/// Index of the first solid voxel (palette index not 0) among `vs[0..n]`
/// that falls outside the padded shape, if any.
pub open spec fn first_out_of_bounds(vs: Seq<VoxVoxel>, s: Seq<u32>, n: int) -> Option<int>
    decreases n,
{
    if n <= 0 {
        None
    } else {
        match first_out_of_bounds(vs, s, n - 1) {
            Some(j) => Some(j),
            None => if vs[n - 1].i != 0 && !spec_in_bounds(s, voxel_cell(vs[n - 1])) {
                Some(n - 1)
            } else {
                None
            },
        }
    }
}

/// Palette index at linear position `p` after writing the solid voxels
/// `vs[0..n]` in order into an empty grid: the last write wins.
pub open spec fn painted(vs: Seq<VoxVoxel>, s: Seq<u32>, n: int, p: int) -> u8
    decreases n,
{
    if n <= 0 {
        0
    } else if vs[n - 1].i != 0 && spec_linearize(s, voxel_cell(vs[n - 1])) == p {
        vs[n - 1].i
    } else {
        painted(vs, s, n - 1, p)
    }
}

/// The padded grid's voxel count fits in `u32`, the mesher's index type.
pub open spec fn remap_fits(m: [u32; 3]) -> bool {
    &&& m[0] + 2 <= u32::MAX && m[1] + 2 <= u32::MAX && m[2] + 2 <= u32::MAX
    &&& (m[0] + 2) * (m[2] + 2) * (m[1] + 2) <= u32::MAX
}

/// Read a MagicaVoxel model into the padded, axis-remapped grid. Solid voxels
/// (palette index not 0) are written in list order at their permuted cell;
/// a zero-sized dimension or a solid voxel outside the model is an error.
pub fn remap_voxels(model: &VoxModel) -> (r: Result<RemappedVoxels, RemapError>)
    requires
        model.size[0] == 0 || model.size[1] == 0 || model.size[2] == 0 || remap_fits(model.size),
    ensures
        (model.size[0] == 0 || model.size[1] == 0 || model.size[2] == 0) <==> r == Err::<RemappedVoxels, RemapError>(
            RemapError::EmptyModel,
        ),
        !(model.size[0] == 0 || model.size[1] == 0 || model.size[2] == 0) ==> match r {
            Ok(rm) => {
                &&& first_out_of_bounds(model.voxels@, padded_size(model.size), model.voxels@.len() as int) is None
                &&& rm.size_units@ == padded_size(model.size)
                &&& rm.shape.size@ == padded_size(model.size)
                &&& rm.voxels@.len() == spec_count(padded_size(model.size))
                &&& forall|p: int|
                    0 <= p < rm.voxels@.len() ==> #[trigger] rm.voxels@[p] == painted(
                        model.voxels@,
                        padded_size(model.size),
                        model.voxels@.len() as int,
                        p,
                    )
            },
            Err(RemapError::EmptyModel) => false,
            Err(RemapError::OutOfBounds { coord, size }) => {
                &&& first_out_of_bounds(model.voxels@, padded_size(model.size), model.voxels@.len() as int) matches Some(j)
                    && u32s_as_ints(coord@) == voxel_cell(model.voxels@[j])
                &&& size@ == padded_size(model.size)
            },
        },
{
    if model.size[0] == 0 || model.size[1] == 0 || model.size[2] == 0 {
        return Err(RemapError::EmptyModel);
    }
    let inner: [u32; 3] = [model.size[0], model.size[2], model.size[1]];
    let padded: [u32; 3] = [inner[0] + 2, inner[1] + 2, inner[2] + 2];
    let ghost ps = padded_size(model.size);
    assert(padded@ =~= ps);
    let shape = Shape3::new(padded);
    let count = shape.count();
    let mut voxels: Vec<u8> = Vec::with_capacity(count as usize);
    let mut c: u32 = 0;
    while c < count
        invariant
            0 <= c <= count,
            voxels@.len() == c,
            forall|p: int| 0 <= p < c ==> #[trigger] voxels@[p] == 0,
        decreases count - c,
    {
        voxels.push(0);
        c = c + 1;
    }
    let ghost vs = model.voxels@;
    let mut n: usize = 0;
    while n < model.voxels.len()
        invariant
            vs == model.voxels@,
            ps == padded_size(model.size),
            !(model.size[0] == 0 || model.size[1] == 0 || model.size[2] == 0),
            shape.size@ == ps,
            padded@ == ps,
            count == spec_count(ps),
            count <= u32::MAX,
            0 <= n <= vs.len(),
            first_out_of_bounds(vs, ps, n as int) is None,
            voxels@.len() == count,
            forall|p: int| 0 <= p < count ==> #[trigger] voxels@[p] == painted(vs, ps, n as int, p),
        decreases vs.len() - n,
    {
        let v = model.voxels[n];
        if v.i != 0 {
            let coord: [u32; 3] = [v.x as u32 + 1, v.z as u32 + 1, v.y as u32 + 1];
            assert(u32s_as_ints(coord@) =~= voxel_cell(v));
            if !shape.in_bounds(coord) {
                proof {
                    assert(first_out_of_bounds(vs, ps, n + 1) == Some(n as int));
                    lemma_first_oob_stable(vs, ps, n + 1, vs.len() as int);
                }
                return Err(RemapError::OutOfBounds { coord, size: padded });
            }
            proof {
                crate::vox::mesh::lemma_linearize_bounds(ps, voxel_cell(v));
                assert(coord@[0] * ps[1] + coord@[1] < ps[0] * ps[1]) by (nonlinear_arith)
                    requires
                        0 <= coord@[0] < ps[0],
                        0 <= coord@[1] < ps[1],
                ;
                let (a, b, cc) = (ps[0] as int, ps[1] as int, ps[2] as int);
                assert(a * b <= a * b * cc) by (nonlinear_arith)
                    requires
                        a >= 0,
                        b >= 0,
                        cc >= 1,
                ;
            }
            let idx = shape.linearize(coord) as usize;
            voxels.set(idx, v.i);
        }
        proof {
            assert forall|p: int| 0 <= p < count implies #[trigger] voxels@[p] == painted(vs, ps, n + 1, p) by {}
        }
        n = n + 1;
    }
    Ok(RemappedVoxels { voxels, shape, size_units: padded })
}

/// Once an offending voxel is found among the first `n`, it stays the first.
pub proof fn lemma_first_oob_stable(vs: Seq<VoxVoxel>, s: Seq<u32>, n: int, m: int)
    requires
        0 <= n <= m,
        first_out_of_bounds(vs, s, n) is Some,
    ensures
        first_out_of_bounds(vs, s, m) == first_out_of_bounds(vs, s, n),
    decreases m - n,
{
    if m > n {
        lemma_first_oob_stable(vs, s, n, m - 1);
    }
}

/// Every solid voxel lies within the model's declared size.
pub open spec fn voxels_within(vs: Seq<VoxVoxel>, m: [u32; 3]) -> bool {
    forall|j: int| 0 <= j < vs.len() && (#[trigger] vs[j]).i != 0 ==> vs[j].x < m[0] && vs[j].y < m[1] && vs[j].z < m[2]
}

/// The point lies on the outer layer of a shape of size `s`.
pub open spec fn on_border(s: Seq<u32>, c: Seq<int>) -> bool {
    exists|a: int| 0 <= a < 3 && (c[a] == 0 || c[a] == s[a] - 1)
}

/// A model whose voxels lie within its size keeps a one-voxel empty border
/// after the remap, so the mesher meets the model's outer skin.
pub proof fn law_remap_border_empty(vs: Seq<VoxVoxel>, m: [u32; 3], p: int)
    requires
        voxels_within(vs, m),
        remap_fits(m),
        0 <= p < spec_count(padded_size(m)),
        on_border(padded_size(m), crate::vox::mesh::spec_delinearize(padded_size(m), p)),
    ensures
        painted(vs, padded_size(m), vs.len() as int, p) == 0,
{
    let s = padded_size(m);
    crate::vox::mesh::law_linearize_delinearize(s, p);
    lemma_border_unpainted(vs, m, p, vs.len() as int);
}

proof fn lemma_border_unpainted(vs: Seq<VoxVoxel>, m: [u32; 3], p: int, n: int)
    requires
        voxels_within(vs, m),
        remap_fits(m),
        0 <= n <= vs.len(),
        0 <= p < spec_count(padded_size(m)),
        on_border(padded_size(m), crate::vox::mesh::spec_delinearize(padded_size(m), p)),
    ensures
        painted(vs, padded_size(m), n, p) == 0,
    decreases n,
{
    let s = padded_size(m);
    if n > 0 {
        lemma_border_unpainted(vs, m, p, n - 1);
        let v = vs[n - 1];
        if v.i != 0 {
            let c = voxel_cell(v);
            assert(spec_in_bounds(s, c));
            if spec_linearize(s, c) == p {
                crate::vox::mesh::law_delinearize_linearize(s, c);
                let d = crate::vox::mesh::spec_delinearize(s, p);
                assert(d == c);
                let a = choose|a: int| 0 <= a < 3 && (d[a] == 0 || d[a] == s[a] - 1);
                assert(false);
            }
        }
    }
}

} // verus!
