//! Greedy mesher for voxel data (0fps greedy meshing).
//!
//! Input: a flat array of palette indices (0 = empty) plus a [`Shape3`]
//! describing its dimensions. Output: one merged quad per maximal run of
//! equally coloured visible voxel faces, in voxel units.

use vstd::prelude::*;
use crate::greedy::{
    MaskRect, covered, covers_cell, greedy_merge, greedy_scan, law_greedy_partition, lemma_mask_index, lemma_rect_extent,
    mask_at, rect_view, rects_disjoint,
};
use crate::model::convert::place3;
use crate::model::mesher::{cross, dot, sub3};

verus! {

/// Axis-indexed 3D shape. Linearization: `i = (x * size[1] + y) * size[2] + z`.
#[derive(Clone, Copy, Debug)]
pub struct Shape3 {
    pub size: [u32; 3],
}

/// Linear index of `p` in a shape of size `s`.
pub open spec fn spec_linearize(s: Seq<u32>, p: Seq<int>) -> int {
    (p[0] * s[1] + p[1]) * s[2] + p[2]
}

/// The point of a shape of size `s` at linear index `i`.
pub open spec fn spec_delinearize(s: Seq<u32>, i: int) -> Seq<int> {
    let z = i % (s[2] as int);
    let j = i / (s[2] as int);
    seq![j / (s[1] as int), j % (s[1] as int), z]
}

pub open spec fn spec_in_bounds(s: Seq<u32>, p: Seq<int>) -> bool {
    0 <= p[0] < s[0] && 0 <= p[1] < s[1] && 0 <= p[2] < s[2]
}

pub open spec fn spec_count(s: Seq<u32>) -> int {
    s[0] * s[1] * s[2]
}

pub open spec fn u32s_as_ints(p: Seq<u32>) -> Seq<int> {
    p.map_values(|c: u32| c as int)
}

/// Inside the shape, linear indices lie below the voxel count.
pub proof fn lemma_linearize_bounds(s: Seq<u32>, p: Seq<int>)
    requires
        s.len() == 3,
        spec_in_bounds(s, p),
    ensures
        0 <= spec_linearize(s, p) < spec_count(s),
{
    let (a, b, c) = (s[0] as int, s[1] as int, s[2] as int);
    let (x, y, z) = (p[0], p[1], p[2]);
    assert(0 <= x * b + y < a * b) by (nonlinear_arith)
        requires
            0 <= x < a,
            0 <= y < b,
    ;
    let t = x * b + y;
    assert(0 <= t * c + z < a * b * c) by (nonlinear_arith)
        requires
            0 <= t < a * b,
            0 <= z < c,
    ;
}

/// Round trip: delinearizing the linear index of an in-bounds point gives the point back.
pub proof fn law_delinearize_linearize(s: Seq<u32>, p: Seq<int>)
    requires
        s.len() == 3,
        p.len() == 3,
        spec_in_bounds(s, p),
    ensures
        spec_delinearize(s, spec_linearize(s, p)) == p,
{
    let (b, c) = (s[1] as int, s[2] as int);
    let (x, y, z) = (p[0], p[1], p[2]);
    let t = x * b + y;
    assert(0 <= t) by (nonlinear_arith)
        requires
            0 <= x,
            0 <= y,
            0 < b,
            t == x * b + y,
    ;
    vstd::arithmetic::div_mod::lemma_fundamental_div_mod_converse(t * c + z, c, t, z);
    vstd::arithmetic::div_mod::lemma_fundamental_div_mod_converse(t, b, x, y);
    assert(spec_delinearize(s, spec_linearize(s, p)) =~= p);
}

/// Round trip: linearizing the point at an index below the voxel count gives the index back.
pub proof fn law_linearize_delinearize(s: Seq<u32>, i: int)
    requires
        s.len() == 3,
        0 <= i < spec_count(s),
    ensures
        spec_in_bounds(s, spec_delinearize(s, i)),
        spec_linearize(s, spec_delinearize(s, i)) == i,
{
    let (a, b, c) = (s[0] as int, s[1] as int, s[2] as int);
    assert(a > 0 && b > 0 && c > 0) by (nonlinear_arith)
        requires
            0 <= i < a * b * c,
            a >= 0,
            b >= 0,
            c >= 0,
    ;
    let j = i / c;
    let z = i % c;
    vstd::arithmetic::div_mod::lemma_fundamental_div_mod(i, c);
    vstd::arithmetic::div_mod::lemma_fundamental_div_mod(j, b);
    let x = j / b;
    let y = j % b;
    assert(0 <= j < a * b) by (nonlinear_arith)
        requires
            i == c * j + z,
            0 <= z < c,
            0 <= i < a * b * c,
            c > 0,
    ;
    assert(0 <= x < a) by (nonlinear_arith)
        requires
            j == b * x + y,
            0 <= y < b,
            0 <= j < a * b,
            b > 0,
    ;
    assert((x * b + y) * c + z == i) by (nonlinear_arith)
        requires
            i == c * j + z,
            j == b * x + y,
    ;
}

impl Shape3 {
    pub fn new(size: [u32; 3]) -> (r: Self)
        ensures
            r.size == size,
    {
        Shape3 { size }
    }

    /// Total voxel count.
    pub fn count(&self) -> (r: u32)
        requires
            spec_count(self.size@) <= u32::MAX,
        ensures
            r == spec_count(self.size@),
    {
        proof {
            let (a, b, c) = (self.size@[0] as int, self.size@[1] as int, self.size@[2] as int);
            assert(a * b <= a * b * c || c == 0) by (nonlinear_arith)
                requires
                    a >= 0,
                    b >= 0,
                    c >= 0,
            ;
            if c == 0 {
                assert(a * b * c == 0) by (nonlinear_arith)
                    requires
                        c == 0,
                ;
            }
        }
        if self.size[2] == 0 {
            0
        } else {
            self.size[0] * self.size[1] * self.size[2]
        }
    }

    pub fn linearize(&self, p: [u32; 3]) -> (r: u32)
        requires
            p@[0] * self.size@[1] + p@[1] <= u32::MAX,
            spec_linearize(self.size@, u32s_as_ints(p@)) <= u32::MAX,
        ensures
            r == spec_linearize(self.size@, u32s_as_ints(p@)),
    {
        let x = p[0];
        let y = p[1];
        let z = p[2];
        proof {
            let (b, c) = (self.size@[1] as int, self.size@[2] as int);
            assert(x * b <= x * b + y);
            assert((x * b + y) * c <= (x * b + y) * c + z);
        }
        (x * self.size[1] + y) * self.size[2] + z
    }

    pub fn delinearize(&self, i: u32) -> (r: [u32; 3])
        requires
            self.size@[1] > 0,
            self.size@[2] > 0,
        ensures
            u32s_as_ints(r@) == spec_delinearize(self.size@, i as int),
    {
        let z = i % self.size[2];
        let j = i / self.size[2];
        let y = j % self.size[1];
        let x = j / self.size[1];
        let r = [x, y, z];
        assert(u32s_as_ints(r@) =~= spec_delinearize(self.size@, i as int));
        r
    }

    pub fn in_bounds(&self, p: [u32; 3]) -> (r: bool)
        ensures
            r == spec_in_bounds(self.size@, u32s_as_ints(p@)),
    {
        p[0] < self.size[0] && p[1] < self.size[1] && p[2] < self.size[2]
    }
}

/// A merged face-quad in voxel space. `minimum` is the corner with the
/// smallest coordinates on the voxel's own slice; `width` and `height` extend
/// along the face's U and V axes.
#[derive(Clone, Copy, Debug, PartialEq, Eq)]
pub struct UnorientedQuad {
    pub minimum: [u32; 3],
    pub width: u32,
    pub height: u32,
}

/// One of the six face directions: the normal axis (0 = X, 1 = Y, 2 = Z), its
/// sign, and the two tangent axes. For every direction U x V is +N, so that
/// triangle (0, 1, 2) turns counter-clockwise seen from +N.
#[derive(Clone, Copy, Debug, PartialEq, Eq, Structural)]
pub struct OrientedFace {
    pub n_axis: u32,
    pub n_sign: i32,
    pub u_axis: u32,
    pub v_axis: u32,
}

/// (normal axis, sign, u axis, v axis) of direction `k` in the order
/// +X, -X, +Y, -Y, +Z, -Z.
pub open spec fn spec_face(k: int) -> OrientedFace {
    if k == 0 {
        OrientedFace { n_axis: 0, n_sign: 1, u_axis: 1, v_axis: 2 }
    } else if k == 1 {
        OrientedFace { n_axis: 0, n_sign: -1i32, u_axis: 1, v_axis: 2 }
    } else if k == 2 {
        OrientedFace { n_axis: 1, n_sign: 1, u_axis: 2, v_axis: 0 }
    } else if k == 3 {
        OrientedFace { n_axis: 1, n_sign: -1i32, u_axis: 2, v_axis: 0 }
    } else if k == 4 {
        OrientedFace { n_axis: 2, n_sign: 1, u_axis: 0, v_axis: 1 }
    } else {
        OrientedFace { n_axis: 2, n_sign: -1i32, u_axis: 0, v_axis: 1 }
    }
}

/// One of the six directions listed by `spec_face`.
pub open spec fn is_face_direction(f: OrientedFace) -> bool {
    exists|k: int| 0 <= k < 6 && spec_face(k) == f
}

/// Unit normal of a face direction.
pub open spec fn face_normal(f: OrientedFace) -> Seq<int> {
    Seq::new(3, |a: int| if a == f.n_axis { f.n_sign as int } else { 0 })
}

impl OrientedFace {
    pub fn pos_x() -> (r: Self)
        ensures
            r == spec_face(0),
    {
        OrientedFace { n_axis: 0, n_sign: 1, u_axis: 1, v_axis: 2 }
    }

    pub fn neg_x() -> (r: Self)
        ensures
            r == spec_face(1),
    {
        OrientedFace { n_axis: 0, n_sign: -1, u_axis: 1, v_axis: 2 }
    }

    pub fn pos_y() -> (r: Self)
        ensures
            r == spec_face(2),
    {
        OrientedFace { n_axis: 1, n_sign: 1, u_axis: 2, v_axis: 0 }
    }

    pub fn neg_y() -> (r: Self)
        ensures
            r == spec_face(3),
    {
        OrientedFace { n_axis: 1, n_sign: -1, u_axis: 2, v_axis: 0 }
    }

    pub fn pos_z() -> (r: Self)
        ensures
            r == spec_face(4),
    {
        OrientedFace { n_axis: 2, n_sign: 1, u_axis: 0, v_axis: 1 }
    }

    pub fn neg_z() -> (r: Self)
        ensures
            r == spec_face(5),
    {
        OrientedFace { n_axis: 2, n_sign: -1, u_axis: 0, v_axis: 1 }
    }

    /// All six directions in meshing order.
    pub fn all() -> (r: [Self; 6])
        ensures
            forall|k: int| 0 <= k < 6 ==> #[trigger] r@[k] == spec_face(k),
    {
        [Self::pos_x(), Self::neg_x(), Self::pos_y(), Self::neg_y(), Self::pos_z(), Self::neg_z()]
    }

    /// Six vertex indices forming the quad's two triangles. Front faces
    /// (positive normal) are wound (0,1,2), (1,3,2); back faces (0,2,1), (1,2,3).
    pub fn quad_mesh_indices(&self, start: u32) -> (r: [u32; 6])
        requires
            start + 3 <= u32::MAX,
        ensures
            self.n_sign > 0 ==> r@ == seq![start, (start + 1) as u32, (start + 2) as u32, (start + 1) as u32, (start + 3) as u32, (start + 2) as u32],
            self.n_sign <= 0 ==> r@ == seq![start, (start + 2) as u32, (start + 1) as u32, (start + 1) as u32, (start + 2) as u32, (start + 3) as u32],
    {
        let r = if self.n_sign > 0 {
            [start, start + 1, start + 2, start + 1, start + 3, start + 2]
        } else {
            [start, start + 2, start + 1, start + 1, start + 2, start + 3]
        };
        assert(self.n_sign > 0 ==> r@ =~= seq![start, (start + 1) as u32, (start + 2) as u32, (start + 1) as u32, (start + 3) as u32, (start + 2) as u32]);
        assert(self.n_sign <= 0 ==> r@ =~= seq![start, (start + 2) as u32, (start + 1) as u32, (start + 1) as u32, (start + 2) as u32, (start + 3) as u32]);
        r
    }

    /// Four corners of the quad in voxel units: the face lies on the far side
    /// of its voxel for a positive normal and on the near side otherwise.
    /// Corner 1 is one `width` along U, corner 2 one `height` along V, corner 3
    /// both.
    pub fn quad_corners(&self, quad: &UnorientedQuad) -> (r: [[u32; 3]; 4])
        requires
            is_face_direction(*self),
            quad.minimum@[self.n_axis as int] + 1 <= u32::MAX,
            quad.minimum@[self.u_axis as int] + quad.width <= u32::MAX,
            quad.minimum@[self.v_axis as int] + quad.height <= u32::MAX,
        ensures
            forall|j: int| 0 <= j < 4 ==> #[trigger] u32s_as_ints(r@[j]@) == spec_quad_corner(*self, *quad, j),
    {
        let mut base = quad.minimum;
        if self.n_sign > 0 {
            base[self.n_axis as usize] = base[self.n_axis as usize] + 1;
        }
        let a = base;
        let mut b = base;
        let mut c = base;
        let mut d = base;
        b[self.u_axis as usize] = base[self.u_axis as usize] + quad.width;
        c[self.v_axis as usize] = base[self.v_axis as usize] + quad.height;
        d[self.u_axis as usize] = b[self.u_axis as usize];
        d[self.v_axis as usize] = c[self.v_axis as usize];
        let r = [a, b, c, d];
        assert(u32s_as_ints(r@[0]@) =~= spec_quad_corner(*self, *quad, 0));
        assert(u32s_as_ints(r@[1]@) =~= spec_quad_corner(*self, *quad, 1));
        assert(u32s_as_ints(r@[2]@) =~= spec_quad_corner(*self, *quad, 2));
        assert(u32s_as_ints(r@[3]@) =~= spec_quad_corner(*self, *quad, 3));
        r
    }
}

/// Corner `j` of a quad of face direction `f`, in voxel units.
pub open spec fn spec_quad_corner(f: OrientedFace, q: UnorientedQuad, j: int) -> Seq<int> {
    let m = u32s_as_ints(q.minimum@);
    let base = if f.n_sign > 0 { m.update(f.n_axis as int, m[f.n_axis as int] + 1) } else { m };
    let du = if j == 1 || j == 3 { q.width as int } else { 0 };
    let dv = if j == 2 || j == 3 { q.height as int } else { 0 };
    base.update(f.u_axis as int, base[f.u_axis as int] + du).update(f.v_axis as int, base[f.v_axis as int] + dv)
}

/// Vertex offsets (within the quad) of the first triangle of `quad_mesh_indices`.
pub open spec fn first_triangle(f: OrientedFace) -> Seq<int> {
    if f.n_sign > 0 { seq![0int, 1, 2] } else { seq![0int, 2, 1] }
}

/// Winding law: for each of the six face directions and any quad with
/// positive width and height, the first triangle emitted by
/// `quad_mesh_indices`, taken in index order, turns counter-clockwise seen
/// from the side the face's normal points to: its geometric normal is
/// `width * height` times the face's unit normal.
pub proof fn law_quad_winding_matches_normal(k: int, q: UnorientedQuad)
    requires
        0 <= k < 6,
        q.width > 0,
        q.height > 0,
    ensures
        ({
            let f = spec_face(k);
            let t = first_triangle(f);
            let p0 = spec_quad_corner(f, q, t[0]);
            let p1 = spec_quad_corner(f, q, t[1]);
            let p2 = spec_quad_corner(f, q, t[2]);
            dot(cross(sub3(p1, p0), sub3(p2, p0)), face_normal(f)) == q.width as int * q.height as int
        }),
        q.width as int * q.height as int > 0,
{
    let w = q.width as int;
    let h = q.height as int;
    assert(w * h > 0) by (nonlinear_arith)
        requires
            w > 0,
            h > 0,
    ;
    let f = spec_face(k);
    let t = first_triangle(f);
    let p0 = spec_quad_corner(f, q, t[0]);
    let p1 = spec_quad_corner(f, q, t[1]);
    let p2 = spec_quad_corner(f, q, t[2]);
    let e1 = sub3(p1, p0);
    let e2 = sub3(p2, p0);
    let na = f.n_axis as int;
    let ua = f.u_axis as int;
    let va = f.v_axis as int;
    if f.n_sign > 0 {
        assert(e1[ua] == w && e1[va] == 0 && e1[na] == 0);
        assert(e2[ua] == 0 && e2[va] == h && e2[na] == 0);
    } else {
        assert(e1[ua] == 0 && e1[va] == h && e1[na] == 0);
        assert(e2[ua] == w && e2[va] == 0 && e2[na] == 0);
    }
    let c = cross(e1, e2);
    assert(c[na] == if f.n_sign > 0 { w * h } else { -(w * h) }) by (nonlinear_arith)
        requires
            c == cross(e1, e2),
            (na == 0 && ua == 1 && va == 2) || (na == 1 && ua == 2 && va == 0) || (na == 2 && ua == 0 && va == 1),
            e1[na] == 0,
            e2[na] == 0,
            f.n_sign > 0 ==> e1[ua] == w && e1[va] == 0 && e2[ua] == 0 && e2[va] == h,
            f.n_sign <= 0 ==> e1[ua] == 0 && e1[va] == h && e2[ua] == w && e2[va] == 0,
    ;
    let nrm = face_normal(f);
    let sg = f.n_sign as int;
    assert(nrm[na] == sg);
    assert(forall|a: int| 0 <= a < 3 && a != na ==> nrm[a] == 0);
    let x = c[na];
    assert(dot(c, nrm) == sg * x) by (nonlinear_arith)
        requires
            0 <= na < 3,
            nrm[na] == sg,
            x == c[na],
            forall|a: int| 0 <= a < 3 && a != na ==> nrm[a] == 0,
    ;
}

/// A merged quad together with its direction and palette index.
#[derive(Clone, Copy, Debug)]
pub struct FaceQuad {
    pub face: OrientedFace,
    pub quad: UnorientedQuad,
    pub palette_index: u8,
}

/// The point with coordinate `n` on the normal axis and `u`, `v` on the tangent axes.
pub fn assemble_coord(n_axis: u32, n: u32, u_axis: u32, u: u32, v_axis: u32, v: u32) -> (c: [u32; 3])
    requires
        n_axis < 3,
        u_axis < 3,
        v_axis < 3,
    ensures
        forall|a: int| 0 <= a < 3 ==> #[trigger] c@[a] == if a == v_axis {
            v
        } else if a == u_axis {
            u
        } else if a == n_axis {
            n
        } else {
            0
        },
{
    let mut c = [0u32; 3];
    c[n_axis as usize] = n;
    c[u_axis as usize] = u;
    c[v_axis as usize] = v;
    c
}

/// Mask cell `(u, v)` of slice `k` for face direction `f`: the voxel's palette
/// index when it is solid and its neighbour on the normal side is empty or
/// outside the shape.
pub open spec fn exposed_voxel(vox: Seq<u8>, s: Seq<u32>, f: OrientedFace, k: int, u: int, v: int) -> Option<u8> {
    let c = place3(f.n_axis as int, f.u_axis as int, f.v_axis as int, k, u, v);
    let nb = place3(f.n_axis as int, f.u_axis as int, f.v_axis as int, k + f.n_sign, u, v);
    let here = vox[spec_linearize(s, c)];
    if here != 0 && (!spec_in_bounds(s, nb) || vox[spec_linearize(s, nb)] == 0) {
        Some(here)
    } else {
        None
    }
}

/// Exposure mask of slice `k`, row-major over (u, v).
pub open spec fn voxel_slice_mask(vox: Seq<u8>, s: Seq<u32>, f: OrientedFace, k: int) -> Seq<Option<u8>> {
    let us = s[f.u_axis as int] as int;
    Seq::new((us * s[f.v_axis as int]) as nat, |i: int| exposed_voxel(vox, s, f, k, i % us, i / us))
}

/// The quad emitted for rectangle `r` of slice `k`.
pub open spec fn rect_quad(f: OrientedFace, k: int, r: (int, int, int, int, u8)) -> FaceQuad {
    let c = place3(f.n_axis as int, f.u_axis as int, f.v_axis as int, k, r.0, r.1);
    FaceQuad {
        face: f,
        quad: UnorientedQuad { minimum: [c[0] as u32, c[1] as u32, c[2] as u32], width: r.2 as u32, height: r.3 as u32 },
        palette_index: r.4,
    }
}

/// Quads of slice `k` of face direction `f`.
pub open spec fn slice_quads(vox: Seq<u8>, s: Seq<u32>, f: OrientedFace, k: int) -> Seq<FaceQuad> {
    greedy_scan(voxel_slice_mask(vox, s, f, k), s[f.u_axis as int] as int, s[f.v_axis as int] as int, 0, 0).map_values(
        |r: (int, int, int, int, u8)| rect_quad(f, k, r),
    )
}

/// The merged quads of a slice tile its exposed voxel faces: each quad is
/// the rectangle emitted for it, every cell of a rectangle is an exposed face
/// of the rectangle's palette index, no two rectangles share a cell, and
/// every exposed face lies in one of them.
pub proof fn law_slice_quads_tile_exposed_faces(vox: Seq<u8>, s: Seq<u32>, f: OrientedFace, k: int)
    requires
        s.len() == 3,
        is_face_direction(f),
        s[f.u_axis as int] >= 1,
    ensures
        ({
            let us = s[f.u_axis as int] as int;
            let vs = s[f.v_axis as int] as int;
            let rects = greedy_scan(voxel_slice_mask(vox, s, f, k), us, vs, 0, 0);
            &&& slice_quads(vox, s, f, k) == rects.map_values(|r: (int, int, int, int, u8)| rect_quad(f, k, r))
            &&& rects_disjoint(rects)
            &&& forall|i: int, x: int, y: int|
                0 <= i < rects.len() && #[trigger] covers_cell(rects[i], x, y) ==> 0 <= x < us && 0 <= y < vs
                    && exposed_voxel(vox, s, f, k, x, y) == Some(rects[i].4)
            &&& forall|x: int, y: int|
                0 <= x < us && 0 <= y < vs && #[trigger] exposed_voxel(vox, s, f, k, x, y) is Some ==> covered(rects, x, y)
        }),
{
    let us = s[f.u_axis as int] as int;
    let vs = s[f.v_axis as int] as int;
    let m = voxel_slice_mask(vox, s, f, k);
    assert(m.len() == us * vs);
    law_greedy_partition(m, us, vs);
    let rects = greedy_scan(m, us, vs, 0, 0);
    assert forall|x: int, y: int| 0 <= x < us && 0 <= y < vs implies #[trigger] mask_at(m, us, x, y) == exposed_voxel(
        vox,
        s,
        f,
        k,
        x,
        y,
    ) by {
        lemma_mask_index(us, vs, x, y);
    }
    assert forall|i: int, x: int, y: int| 0 <= i < rects.len() && #[trigger] covers_cell(rects[i], x, y) implies 0 <= x < us
        && 0 <= y < vs && exposed_voxel(vox, s, f, k, x, y) == Some(rects[i].4) by {
        lemma_rect_extent(m, us, vs, i);
        assert(mask_at(m, us, x, y) == Some(rects[i].4));
    }
    assert forall|x: int, y: int| 0 <= x < us && 0 <= y < vs && #[trigger] exposed_voxel(vox, s, f, k, x, y) is Some implies covered(
        rects,
        x,
        y,
    ) by {
        assert(mask_at(m, us, x, y) is Some);
    }
}

/// Offset of index `t` of a quad's six triangle indices from its first
/// vertex: (0,1,2), (1,3,2) for a positive normal, (0,2,1), (1,2,3) otherwise.
pub open spec fn quad_index_offset(f: OrientedFace, t: int) -> int {
    if f.n_sign > 0 {
        seq![0int, 1, 2, 1, 3, 2][t]
    } else {
        seq![0int, 2, 1, 1, 2, 3][t]
    }
}

/// The triangle indices of a mesh holding four vertices per quad, quads in
/// order: quad `i` owns vertices `4i..4i+4` and contributes six indices.
pub fn quads_mesh_indices(quads: &[FaceQuad]) -> (r: Vec<u32>)
    requires
        4 * quads@.len() <= u32::MAX,
    ensures
        r@.len() == 6 * quads@.len(),
        forall|i: int, t: int|
            0 <= i < quads@.len() && 0 <= t < 6 ==> #[trigger] r@[6 * i + t] == 4 * i + quad_index_offset(
                quads@[i].face,
                t,
            ),
{
    let mut r: Vec<u32> = Vec::new();
    let mut i: usize = 0;
    while i < quads.len()
        invariant
            4 * quads@.len() <= u32::MAX,
            0 <= i <= quads@.len(),
            r@.len() == 6 * i,
            forall|j: int, t: int|
                0 <= j < i && 0 <= t < 6 ==> #[trigger] r@[6 * j + t] == 4 * j + quad_index_offset(quads@[j].face, t),
        decreases quads@.len() - i,
    {
        let start: u32 = (4 * i) as u32;
        let six = quads[i].face.quad_mesh_indices(start);
        let ghost before = r@;
        let mut t: usize = 0;
        while t < 6
            invariant
                0 <= i < quads@.len(),
                start == 4 * i,
                start + 3 <= u32::MAX,
                quads@[i as int].face.n_sign > 0 ==> six@ == seq![start, (start + 1) as u32, (start + 2) as u32, (start + 1) as u32, (start + 3) as u32, (start + 2) as u32],
                quads@[i as int].face.n_sign <= 0 ==> six@ == seq![start, (start + 2) as u32, (start + 1) as u32, (start + 1) as u32, (start + 2) as u32, (start + 3) as u32],
                0 <= t <= 6,
                before.len() == 6 * i,
                r@.len() == 6 * i + t,
                forall|k: int| 0 <= k < 6 * i ==> r@[k] == before[k],
                forall|u: int| 0 <= u < t ==> #[trigger] r@[6 * i + u] == 4 * i + quad_index_offset(quads@[i as int].face, u),
            decreases 6 - t,
        {
            r.push(six[t]);
            t = t + 1;
        }
        proof {
            assert forall|j: int, u: int| 0 <= j < i + 1 && 0 <= u < 6 implies #[trigger] r@[6 * j + u] == 4 * j
                + quad_index_offset(quads@[j].face, u) by {
                if j < i {
                    assert(6 * j + u < 6 * i) by (nonlinear_arith)
                        requires
                            j < i,
                            0 <= u < 6,
                    ;
                    assert(r@[6 * j + u] == before[6 * j + u]);
                }
            }
        }
        i = i + 1;
    }
    r
}

/// Quads of slices `0..upto` of face direction `f`.
pub open spec fn face_quads(vox: Seq<u8>, s: Seq<u32>, f: OrientedFace, upto: int) -> Seq<FaceQuad>
    decreases upto,
{
    if upto <= 0 {
        Seq::empty()
    } else {
        face_quads(vox, s, f, upto - 1) + slice_quads(vox, s, f, upto - 1)
    }
}

/// Quads of face directions `0..upto`, each over all its slices.
pub open spec fn shape_quads(vox: Seq<u8>, s: Seq<u32>, upto: int) -> Seq<FaceQuad>
    decreases upto,
{
    if upto <= 0 {
        Seq::empty()
    } else {
        shape_quads(vox, s, upto - 1) + face_quads(vox, s, spec_face(upto - 1), s[spec_face(upto - 1).n_axis as int] as int)
    }
}

/// In-bounds points have linear indices below the count; tangent-plane
/// products fit whenever the normal extent is positive.
proof fn lemma_shape_products(s: Seq<u32>, f: OrientedFace)
    requires
        s.len() == 3,
        is_face_direction(f),
        s[f.n_axis as int] > 0,
        spec_count(s) <= u32::MAX,
    ensures
        s[f.u_axis as int] * s[f.v_axis as int] <= spec_count(s),
        s[0] * s[1] <= spec_count(s) || s[2] == 0,
{
    let (a, b, c) = (s[0] as int, s[1] as int, s[2] as int);
    assert(a * b <= a * b * c || c == 0) by (nonlinear_arith)
        requires
            a >= 0,
            b >= 0,
            c >= 0,
    ;
    assert(b * c <= a * b * c || a == 0) by (nonlinear_arith)
        requires
            a >= 0,
            b >= 0,
            c >= 0,
    ;
    assert(c * a <= a * b * c || b == 0) by (nonlinear_arith)
        requires
            a >= 0,
            b >= 0,
            c >= 0,
    ;
}

/// Mask value of cell `(u, v)` of slice `k`.
fn exposed_cell(voxels: &[u8], shape: &Shape3, face: OrientedFace, k: u32, u: u32, v: u32) -> (r: Option<u8>)
    requires
        is_face_direction(face),
        voxels@.len() == spec_count(shape.size@),
        spec_count(shape.size@) <= u32::MAX,
        k < shape.size@[face.n_axis as int],
        u < shape.size@[face.u_axis as int],
        v < shape.size@[face.v_axis as int],
    ensures
        r == exposed_voxel(voxels@, shape.size@, face, k as int, u as int, v as int),
{
    let coord = assemble_coord(face.n_axis, k, face.u_axis, u, face.v_axis, v);
    let ghost c = place3(face.n_axis as int, face.u_axis as int, face.v_axis as int, k as int, u as int, v as int);
    assert(u32s_as_ints(coord@) =~= c);
    proof {
        lemma_linearize_bounds(shape.size@, c);
        lemma_shape_products(shape.size@, face);
        let (b, cc) = (shape.size@[1] as int, shape.size@[2] as int);
        assert(c[0] * b + c[1] < shape.size@[0] * b) by (nonlinear_arith)
            requires
                0 <= c[0] < shape.size@[0],
                0 <= c[1] < b,
        ;
    }
    let this_idx = shape.linearize(coord) as usize;
    let this_voxel = voxels[this_idx];
    if this_voxel == 0 {
        return None;
    }
    let n_coord = if face.n_sign > 0 {
        let mut c2 = coord;
        c2[face.n_axis as usize] = c2[face.n_axis as usize] + 1;
        c2
    } else {
        let mut c2 = coord;
        c2[face.n_axis as usize] = c2[face.n_axis as usize].wrapping_sub(1);
        c2
    };
    let ghost nb = place3(face.n_axis as int, face.u_axis as int, face.v_axis as int, k + face.n_sign, u as int, v as int);
    let inside = shape.in_bounds(n_coord);
    proof {
        if face.n_sign <= 0 && k == 0 {
            assert(!spec_in_bounds(shape.size@, nb));
            assert(!inside);
        } else {
            assert(u32s_as_ints(n_coord@) =~= nb);
        }
    }
    let neighbor_empty = if !inside {
        true
    } else {
        proof {
            lemma_linearize_bounds(shape.size@, nb);
            assert(nb[0] * shape.size@[1] + nb[1] < shape.size@[0] * shape.size@[1]) by (nonlinear_arith)
                requires
                    0 <= nb[0] < shape.size@[0],
                    0 <= nb[1] < shape.size@[1],
            ;
        }
        voxels[shape.linearize(n_coord) as usize] == 0
    };
    if neighbor_empty {
        Some(this_voxel)
    } else {
        None
    }
}

/// Exposure mask of slice `k`.
fn build_voxel_mask(voxels: &[u8], shape: &Shape3, face: OrientedFace, k: u32) -> (mask: Vec<Option<u8>>)
    requires
        is_face_direction(face),
        voxels@.len() == spec_count(shape.size@),
        spec_count(shape.size@) <= u32::MAX,
        k < shape.size@[face.n_axis as int],
    ensures
        mask@ == voxel_slice_mask(voxels@, shape.size@, face, k as int),
{
    let u_size = shape.size[face.u_axis as usize];
    let v_size = shape.size[face.v_axis as usize];
    let ghost us = u_size as int;
    let ghost target = voxel_slice_mask(voxels@, shape.size@, face, k as int);
    proof {
        lemma_shape_products(shape.size@, face);
    }
    let mut mask: Vec<Option<u8>> = Vec::new();
    let mut v: u32 = 0;
    while v < v_size
        invariant
            is_face_direction(face),
            voxels@.len() == spec_count(shape.size@),
            spec_count(shape.size@) <= u32::MAX,
            k < shape.size@[face.n_axis as int],
            u_size == shape.size@[face.u_axis as int],
            v_size == shape.size@[face.v_axis as int],
            us == u_size,
            us * v_size <= u32::MAX,
            target == voxel_slice_mask(voxels@, shape.size@, face, k as int),
            0 <= v <= v_size,
            mask@ == target.subrange(0, v * us),
        decreases v_size - v,
    {
        let mut u: u32 = 0;
        while u < u_size
            invariant
                is_face_direction(face),
                voxels@.len() == spec_count(shape.size@),
                spec_count(shape.size@) <= u32::MAX,
                k < shape.size@[face.n_axis as int],
                u_size == shape.size@[face.u_axis as int],
                v_size == shape.size@[face.v_axis as int],
                us == u_size,
                us * v_size <= u32::MAX,
                target == voxel_slice_mask(voxels@, shape.size@, face, k as int),
                0 <= v < v_size,
                0 <= u <= u_size,
                mask@ == target.subrange(0, v * us + u),
            decreases u_size - u,
        {
            let ghost i = v * us + u;
            proof {
                crate::greedy::lemma_mask_index(us, v_size as int, u as int, v as int);
                assert(i == u + v * us) by (nonlinear_arith)
                    requires
                        i == v * us + u,
                ;
                assert(target[i] == exposed_voxel(voxels@, shape.size@, face, k as int, u as int, v as int));
                assert(target.subrange(0, i + 1) == target.subrange(0, i).push(target[i]));
            }
            let cell = exposed_cell(voxels, shape, face, k, u, v);
            mask.push(cell);
            u = u + 1;
        }
        proof {
            assert(v * us + us == (v + 1) * us) by (nonlinear_arith);
        }
        v = v + 1;
    }
    proof {
        assert(v_size * us == us * v_size) by (nonlinear_arith);
        assert(target.subrange(0, target.len() as int) == target);
    }
    mask
}

/// Append the merged quads of every slice of one face direction to `out`.
pub fn mesh_one_face(voxels: &[u8], shape: &Shape3, face: OrientedFace, out: &mut Vec<FaceQuad>)
    requires
        is_face_direction(face),
        voxels@.len() == spec_count(shape.size@),
        spec_count(shape.size@) <= u32::MAX,
    ensures
        final(out)@ == old(out)@ + face_quads(voxels@, shape.size@, face, shape.size@[face.n_axis as int] as int),
{
    let n_size = shape.size[face.n_axis as usize];
    let u_size = shape.size[face.u_axis as usize];
    let v_size = shape.size[face.v_axis as usize];
    let ghost base = out@;
    let mut k: u32 = 0;
    while k < n_size
        invariant
            is_face_direction(face),
            voxels@.len() == spec_count(shape.size@),
            spec_count(shape.size@) <= u32::MAX,
            n_size == shape.size@[face.n_axis as int],
            u_size == shape.size@[face.u_axis as int],
            v_size == shape.size@[face.v_axis as int],
            0 <= k <= n_size,
            out@ == base + face_quads(voxels@, shape.size@, face, k as int),
        decreases n_size - k,
    {
        proof {
            lemma_shape_products(shape.size@, face);
        }
        let mask = build_voxel_mask(voxels, shape, face, k);
        let rects = greedy_merge(mask, u_size, v_size);
        let ghost sr = greedy_scan(voxel_slice_mask(voxels@, shape.size@, face, k as int), u_size as int, v_size as int, 0, 0);
        let ghost before = out@;
        let mut j: usize = 0;
        while j < rects.len()
            invariant
                is_face_direction(face),
                u_size == shape.size@[face.u_axis as int],
                v_size == shape.size@[face.v_axis as int],
                n_size == shape.size@[face.n_axis as int],
                k < n_size,
                rects@.map_values(|r: MaskRect| rect_view(r)) == sr,
                sr == greedy_scan(voxel_slice_mask(voxels@, shape.size@, face, k as int), u_size as int, v_size as int, 0, 0),
                0 <= j <= rects@.len(),
                out@ == before + sr.subrange(0, j as int).map_values(|r: (int, int, int, int, u8)| rect_quad(face, k as int, r)),
            decreases rects@.len() - j,
        {
            let r = rects[j];
            proof {
                assert(sr.len() == rects@.len());
                assert(rect_view(r) == sr[j as int]);
                lemma_rect_extent(voxel_slice_mask(voxels@, shape.size@, face, k as int), u_size as int, v_size as int, j as int);
            }
            let coord = assemble_coord(face.n_axis, k, face.u_axis, r.u, face.v_axis, r.v);
            let fq = FaceQuad { face, quad: UnorientedQuad { minimum: coord, width: r.w, height: r.h }, palette_index: r.value };
            proof {
                let c = place3(face.n_axis as int, face.u_axis as int, face.v_axis as int, k as int, r.u as int, r.v as int);
                let kk = choose|kk: int| 0 <= kk < 6 && spec_face(kk) == face;
                assert(0 <= kk < 6 && spec_face(kk) == face);
                let arr: [u32; 3] = [c[0] as u32, c[1] as u32, c[2] as u32];
                assert(coord@ =~= arr@);
                assert(coord =~= arr);
                assert(fq.quad == rect_quad(face, k as int, sr[j as int]).quad);
                assert(fq == rect_quad(face, k as int, sr[j as int]));
                assert(sr.subrange(0, j + 1) == sr.subrange(0, j as int).push(sr[j as int]));
            }
            out.push(fq);
            proof {
                assert(out@ =~= before + sr.subrange(0, j + 1).map_values(|r: (int, int, int, int, u8)| rect_quad(face, k as int, r)));
            }
            j = j + 1;
        }
        proof {
            assert(sr.subrange(0, sr.len() as int) == sr);
            assert(out@ =~= base + face_quads(voxels@, shape.size@, face, k + 1));
        }
        k = k + 1;
    }
}

/// The merged quads of all six face directions in meshing order. The mesh
/// buffers are built from these by expanding each quad into four vertices
/// and six indices (`quad_corners`, `quad_mesh_indices`).
pub fn greedy_quads(voxels: &[u8], shape: &Shape3) -> (out: Vec<FaceQuad>)
    requires
        voxels@.len() == spec_count(shape.size@),
        spec_count(shape.size@) <= u32::MAX,
    ensures
        out@ == shape_quads(voxels@, shape.size@, 6),
{
    let faces = OrientedFace::all();
    let mut out: Vec<FaceQuad> = Vec::new();
    let mut i: usize = 0;
    while i < 6
        invariant
            voxels@.len() == spec_count(shape.size@),
            spec_count(shape.size@) <= u32::MAX,
            forall|k: int| 0 <= k < 6 ==> #[trigger] faces@[k] == spec_face(k),
            0 <= i <= 6,
            out@ == shape_quads(voxels@, shape.size@, i as int),
        decreases 6 - i,
    {
        let face = faces[i];
        proof {
            assert(face == spec_face(i as int));
            assert(is_face_direction(face));
        }
        mesh_one_face(voxels, shape, face, &mut out);
        i = i + 1;
    }
    out
}

} // verus!
