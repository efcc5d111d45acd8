//! Face-list model format: axis-aligned quads on six face planes.

use vstd::prelude::*;

verus! {

/// One of six face planes in axis-aligned voxel space. The sign is the
/// normal direction; the face's `depth` is its coordinate along the axis.
#[derive(Clone, Copy, Debug, PartialEq, Eq, Hash, Structural)]
pub enum Plane {
    PosX,
    NegX,
    PosY,
    NegY,
    PosZ,
    NegZ,
}

/// A single quad (axis-aligned rectangle on a plane). `geo_*` is in voxel
/// units, `uv_*` in texture pixels, `material` indexes `ModelDef::materials`.
#[derive(Clone, Copy, Debug, PartialEq, Eq)]
pub struct Face {
    pub plane: Plane,
    pub depth: i32,
    pub geo_min: [u32; 2],
    pub geo_size: [u32; 2],
    pub uv_min: [u32; 2],
    pub uv_size: [u32; 2],
    pub material: u16,
}

/// A face-list model: name, material name table and quads.
#[derive(Clone, Debug)]
pub struct ModelDef {
    pub name: String,
    pub materials: Vec<String>,
    pub faces: Vec<Face>,
}

/// Axis-aligned bounding box in voxel units.
#[derive(Clone, Copy, Debug, PartialEq, Eq)]
pub struct BBox {
    pub min: [i32; 3],
    pub max: [i32; 3],
}

/// (normal axis, u axis, v axis) of a plane; the tangent axes follow the
/// normal cyclically.
pub open spec fn spec_plane_axes(plane: Plane) -> (usize, usize, usize) {
    match plane {
        Plane::PosX | Plane::NegX => (0, 1, 2),
        Plane::PosY | Plane::NegY => (1, 2, 0),
        Plane::PosZ | Plane::NegZ => (2, 0, 1),
    }
}

/// Return the (n_axis, u_axis, v_axis) tuple for a plane, each in [0, 3).
pub fn plane_axes(plane: Plane) -> (r: (usize, usize, usize))
    ensures
        r == spec_plane_axes(plane),
{
    match plane {
        Plane::PosX | Plane::NegX => (0, 1, 2),
        Plane::PosY | Plane::NegY => (1, 2, 0),
        Plane::PosZ | Plane::NegZ => (2, 0, 1),
    }
}

/// The point whose normal coordinate is `n` and tangent coordinates `u`, `v`
/// on the plane's axes.
pub open spec fn place_on_plane(plane: Plane, n: int, u: int, v: int) -> Seq<int> {
    let (na, ua, va) = spec_plane_axes(plane);
    Seq::new(3, |a: int| if a == na { n } else if a == ua { u } else { v })
}

/// The four corners of a face in voxel space, in the order (u0,v0), (u1,v0),
/// (u0,v1), (u1,v1).
pub open spec fn face_corner(f: Face, k: int) -> Seq<int> {
    let u0 = (f.geo_min[0] as i32) as int;
    let v0 = (f.geo_min[1] as i32) as int;
    let u1 = u0 + (f.geo_size[0] as i32) as int;
    let v1 = v0 + (f.geo_size[1] as i32) as int;
    let u = if k == 0 || k == 2 { u0 } else { u1 };
    let v = if k == 0 || k == 1 { v0 } else { v1 };
    place_on_plane(f.plane, f.depth as int, u, v)
}

/// The far corner of a face fits in `i32` (reading the extents as `i32`).
pub open spec fn face_fits(f: Face) -> bool {
    &&& (f.geo_min[0] as i32) + (f.geo_size[0] as i32) <= i32::MAX
    &&& (f.geo_min[0] as i32) + (f.geo_size[0] as i32) >= i32::MIN
    &&& (f.geo_min[1] as i32) + (f.geo_size[1] as i32) <= i32::MAX
    &&& (f.geo_min[1] as i32) + (f.geo_size[1] as i32) >= i32::MIN
}

/// The box contains the point.
pub open spec fn bbox_contains(b: BBox, p: Seq<int>) -> bool {
    forall|a: int| 0 <= a < 3 ==> b.min@[a] <= #[trigger] p[a] <= b.max@[a]
}

impl BBox {
    /// The box that contains nothing; expanding it by a point gives that point.
    pub fn empty() -> (r: BBox)
        ensures
            r.min@ == seq![i32::MAX, i32::MAX, i32::MAX],
            r.max@ == seq![i32::MIN, i32::MIN, i32::MIN],
    {
        let r = BBox { min: [i32::MAX, i32::MAX, i32::MAX], max: [i32::MIN, i32::MIN, i32::MIN] };
        assert(r.min@ =~= seq![i32::MAX, i32::MAX, i32::MAX]);
        assert(r.max@ =~= seq![i32::MIN, i32::MIN, i32::MIN]);
        r
    }

    /// Grow the box to contain `point`.
    pub fn expand(&mut self, point: [i32; 3])
        ensures
            forall|a: int|
                0 <= a < 3 ==> {
                    &&& #[trigger] final(self).min@[a] == if point@[a] < old(self).min@[a] {
                        point@[a]
                    } else {
                        old(self).min@[a]
                    }
                    &&& final(self).max@[a] == if point@[a] > old(self).max@[a] {
                        point@[a]
                    } else {
                        old(self).max@[a]
                    }
                },
    {
        let ghost pre = *self;
        let mut i: usize = 0;
        while i < 3
            invariant
                0 <= i <= 3,
                forall|a: int|
                    0 <= a < i ==> {
                        &&& #[trigger] self.min@[a] == if point@[a] < pre.min@[a] {
                            point@[a]
                        } else {
                            pre.min@[a]
                        }
                        &&& self.max@[a] == if point@[a] > pre.max@[a] {
                            point@[a]
                        } else {
                            pre.max@[a]
                        }
                    },
                forall|a: int| i <= a < 3 ==> #[trigger] self.min@[a] == pre.min@[a],
                forall|a: int| i <= a < 3 ==> #[trigger] self.max@[a] == pre.max@[a],
            decreases 3 - i,
        {
            let mut mn = self.min;
            let mut mx = self.max;
            if point[i] < mn[i] {
                mn[i] = point[i];
            }
            if point[i] > mx[i] {
                mx[i] = point[i];
            }
            proof {
                assert(mn@ == self.min@.update(i as int, mn@[i as int]));
                assert(mx@ == self.max@.update(i as int, mx@[i as int]));
            }
            self.min = mn;
            self.max = mx;
            i = i + 1;
        }
    }

    /// Edge lengths, `max - min` per axis read as `u32`.
    pub fn size(&self) -> (r: [u32; 3])
        requires
            forall|a: int| 0 <= a < 3 ==> i32::MIN <= #[trigger] self.max@[a] - self.min@[a] <= i32::MAX,
        ensures
            forall|a: int| 0 <= a < 3 ==> #[trigger] r@[a] == ((self.max@[a] - self.min@[a]) as i32) as u32,
    {
        let r = [
            (self.max[0] - self.min[0]) as u32,
            (self.max[1] - self.min[1]) as u32,
            (self.max[2] - self.min[2]) as u32,
        ];
        assert forall|a: int| 0 <= a < 3 implies #[trigger] r@[a] == ((self.max@[a] - self.min@[a]) as i32) as u32 by {
            if a == 0 {} else if a == 1 {} else {}
        }
        r
    }
}

/// Corner `k` of face `i` is among those seen once faces `0..fi` and the
/// first `kdone` corners of face `fi` are processed.
pub open spec fn corner_seen(fi: int, kdone: int, i: int, k: int) -> bool {
    (0 <= i < fi && 0 <= k < 4) || (i == fi && 0 <= k < kdone)
}

/// Some seen corner has coordinate `val` on axis `a`.
pub open spec fn corner_attains(faces: Seq<Face>, fi: int, kdone: int, a: int, val: int) -> bool {
    exists|i: int, k: int| corner_seen(fi, kdone, i, k) && #[trigger] face_corner(faces[i], k)[a] == val
}

/// The box is the tightest one around the seen corners.
pub open spec fn tight_box(faces: Seq<Face>, fi: int, kdone: int, b: BBox) -> bool {
    &&& forall|i: int, k: int| corner_seen(fi, kdone, i, k) ==> bbox_contains(b, #[trigger] face_corner(faces[i], k))
    &&& forall|a: int| 0 <= a < 3 ==> #[trigger] corner_attains(faces, fi, kdone, a, b.min@[a] as int)
    &&& forall|a: int| 0 <= a < 3 ==> #[trigger] corner_attains(faces, fi, kdone, a, b.max@[a] as int)
}

impl ModelDef {
    /// The smallest box holding every face corner, or `None` for a model
    /// without faces.
    pub fn bounds(&self) -> (r: Option<BBox>)
        requires
            forall|i: int| 0 <= i < self.faces@.len() ==> face_fits(#[trigger] self.faces@[i]),
        ensures
            r is None <==> self.faces@.len() == 0,
            r matches Some(b) ==> tight_box(self.faces@, self.faces@.len() as int, 0, b),
    {
        let mut bbox = BBox::empty();
        let mut any = false;
        let mut fi: usize = 0;
        let ghost faces = self.faces@;
        while fi < self.faces.len()
            invariant
                faces == self.faces@,
                0 <= fi <= faces.len(),
                any <==> fi > 0,
                forall|i: int| 0 <= i < faces.len() ==> face_fits(#[trigger] faces[i]),
                any ==> tight_box(faces, fi as int, 0, bbox),
                !any ==> bbox.min@ == seq![i32::MAX, i32::MAX, i32::MAX] && bbox.max@ == seq![i32::MIN, i32::MIN, i32::MIN],
            decreases faces.len() - fi,
        {
            let face = self.faces[fi];
            let (n_axis, u_axis, v_axis) = plane_axes(face.plane);
            let n = face.depth;
            let u0 = face.geo_min[0] as i32;
            let v0 = face.geo_min[1] as i32;
            proof {
                assert(face_fits(faces[fi as int]));
            }
            let u1 = u0 + face.geo_size[0] as i32;
            let v1 = v0 + face.geo_size[1] as i32;
            let corners = [(u0, v0), (u1, v0), (u0, v1), (u1, v1)];
            let mut k: usize = 0;
            proof {
                if any {
                    assert forall|i: int, kk: int| corner_seen(fi as int, 0, i, kk) implies corner_seen(fi as int, 0, i, kk) by {}
                }
            }
            while k < 4
                invariant
                    faces == self.faces@,
                    0 <= fi < faces.len(),
                    face == faces[fi as int],
                    (n_axis, u_axis, v_axis) == spec_plane_axes(face.plane),
                    n == face.depth,
                    u0 == face.geo_min[0] as i32,
                    v0 == face.geo_min[1] as i32,
                    u1 == u0 + face.geo_size[0] as i32,
                    v1 == v0 + face.geo_size[1] as i32,
                    corners@ == seq![(u0, v0), (u1, v0), (u0, v1), (u1, v1)],
                    0 <= k <= 4,
                    any <==> (fi > 0 || k > 0),
                    any ==> tight_box(faces, fi as int, k as int, bbox),
                    !any ==> bbox.min@ == seq![i32::MAX, i32::MAX, i32::MAX] && bbox.max@ == seq![i32::MIN, i32::MIN, i32::MIN],
                decreases 4 - k,
            {
                let (u, v) = corners[k];
                let mut p = [0i32; 3];
                p[n_axis] = n;
                p[u_axis] = u;
                p[v_axis] = v;
                let ghost c = face_corner(face, k as int);
                proof {
                    assert forall|a: int| 0 <= a < 3 implies c[a] == p@[a] as int by {}
                }
                let ghost pre = bbox;
                let ghost pre_any = any;
                bbox.expand(p);
                any = true;
                proof {
                    let fk = k as int;
                    assert forall|i: int, kk: int| corner_seen(fi as int, fk + 1, i, kk) implies bbox_contains(bbox, #[trigger] face_corner(faces[i], kk)) by {
                        assert forall|a: int| 0 <= a < 3 implies bbox.min@[a] <= #[trigger] face_corner(faces[i], kk)[a] <= bbox.max@[a] by {
                            assert(bbox.min@[a] <= pre.min@[a] && bbox.min@[a] <= p@[a]);
                            assert(bbox.max@[a] >= pre.max@[a] && bbox.max@[a] >= p@[a]);
                            if i == fi && kk == fk {
                                assert(face_corner(faces[i], kk) == c);
                                assert(c[a] == p@[a]);
                            } else {
                                assert(corner_seen(fi as int, fk, i, kk));
                                assert(pre_any);
                                assert(bbox_contains(pre, face_corner(faces[i], kk)));
                            }
                        }
                    }
                    assert forall|a: int| 0 <= a < 3 implies #[trigger] corner_attains(faces, fi as int, fk + 1, a, bbox.min@[a] as int) by {
                        assert(c[a] == p@[a]);
                        assert(face_corner(faces[fi as int], fk) == c);
                        if bbox.min@[a] == p@[a] {
                            assert(corner_seen(fi as int, fk + 1, fi as int, fk));
                        } else {
                            assert(pre_any);
                            assert(corner_attains(faces, fi as int, fk, a, pre.min@[a] as int));
                            let (wi, wk) = choose|wi: int, wk: int| corner_seen(fi as int, fk, wi, wk) && #[trigger] face_corner(faces[wi], wk)[a] == pre.min@[a] as int;
                            assert(corner_seen(fi as int, fk + 1, wi, wk));
                        }
                    }
                    assert forall|a: int| 0 <= a < 3 implies #[trigger] corner_attains(faces, fi as int, fk + 1, a, bbox.max@[a] as int) by {
                        assert(c[a] == p@[a]);
                        assert(face_corner(faces[fi as int], fk) == c);
                        if bbox.max@[a] == p@[a] {
                            assert(corner_seen(fi as int, fk + 1, fi as int, fk));
                        } else {
                            assert(pre_any);
                            assert(corner_attains(faces, fi as int, fk, a, pre.max@[a] as int));
                            let (wi, wk) = choose|wi: int, wk: int| corner_seen(fi as int, fk, wi, wk) && #[trigger] face_corner(faces[wi], wk)[a] == pre.max@[a] as int;
                            assert(corner_seen(fi as int, fk + 1, wi, wk));
                        }
                    }
                }
                k = k + 1;
            }
            proof {
                assert forall|i: int, kk: int| corner_seen(fi + 1, 0, i, kk) == corner_seen(fi as int, 4, i, kk) by {}
                assert forall|a: int, val: int| #[trigger] corner_attains(faces, fi + 1, 0, a, val) == corner_attains(faces, fi as int, 4, a, val) by {
                    if corner_attains(faces, fi as int, 4, a, val) {
                        let (wi, wk) = choose|wi: int, wk: int| corner_seen(fi as int, 4, wi, wk) && #[trigger] face_corner(faces[wi], wk)[a] == val;
                        assert(corner_seen(fi + 1, 0, wi, wk));
                    }
                    if corner_attains(faces, fi + 1, 0, a, val) {
                        let (wi, wk) = choose|wi: int, wk: int| corner_seen(fi + 1, 0, wi, wk) && #[trigger] face_corner(faces[wi], wk)[a] == val;
                        assert(corner_seen(fi as int, 4, wi, wk));
                    }
                }
            }
            fi = fi + 1;
        }
        if any {
            Some(bbox)
        } else {
            None
        }
    }
}

/// Expanding a box by a point makes it hold the point and everything it
/// held before; expanding the empty box gives the box of just that point.
pub proof fn law_expand_holds_point(before: BBox, after: BBox, point: Seq<i32>, q: Seq<int>)
    requires
        point.len() == 3,
        forall|a: int|
            0 <= a < 3 ==> {
                &&& #[trigger] after.min@[a] == if point[a] < before.min@[a] {
                    point[a]
                } else {
                    before.min@[a]
                }
                &&& after.max@[a] == if point[a] > before.max@[a] {
                    point[a]
                } else {
                    before.max@[a]
                }
            },
    ensures
        bbox_contains(after, Seq::new(3, |a: int| point[a] as int)),
        bbox_contains(before, q) ==> bbox_contains(after, q),
        before.min@ == seq![i32::MAX, i32::MAX, i32::MAX] && before.max@ == seq![i32::MIN, i32::MIN, i32::MIN] ==> forall|a: int|
            #![trigger after.min@[a]]
            0 <= a < 3 ==> after.min@[a] == point[a] && after.max@[a] == point[a],
{
    let pt = Seq::new(3, |a: int| point[a] as int);
    assert forall|a: int| 0 <= a < 3 implies after.min@[a] <= #[trigger] pt[a] <= after.max@[a] by {
        assert(after.min@[a] == if point[a] < before.min@[a] { point[a] } else { before.min@[a] });
    }
    if bbox_contains(before, q) {
        assert forall|a: int| 0 <= a < 3 implies after.min@[a] <= #[trigger] q[a] <= after.max@[a] by {
            assert(before.min@[a] <= q[a] <= before.max@[a]);
            assert(after.min@[a] == if point[a] < before.min@[a] { point[a] } else { before.min@[a] });
        }
    }
    if before.min@ =~= seq![i32::MAX, i32::MAX, i32::MAX] && before.max@ =~= seq![i32::MIN, i32::MIN, i32::MIN] {
        assert forall|a: int| #![trigger after.min@[a]] 0 <= a < 3 implies after.min@[a] == point[a] && after.max@[a] == point[a] by {
            assert(after.min@[a] == if point[a] < before.min@[a] { point[a] } else { before.min@[a] });
            assert(after.max@[a] == if point[a] > before.max@[a] { point[a] } else { before.max@[a] });
            assert(before.min@[a] == i32::MAX && before.max@[a] == i32::MIN);
        }
    }
}

} // verus!
