//! Integer geometry of face quads: normals, corners, triangle winding and the
//! per-material index ranges of a model mesh.

use vstd::prelude::*;
use crate::model::schema::{Face, ModelDef, Plane, plane_axes, place_on_plane, spec_plane_axes};

verus! {

/// Unit normal of a plane.
pub open spec fn spec_plane_normal(plane: Plane) -> Seq<int> {
    match plane {
        Plane::PosX => seq![1int, 0, 0],
        Plane::NegX => seq![-1int, 0, 0],
        Plane::PosY => seq![0int, 1, 0],
        Plane::NegY => seq![0int, -1, 0],
        Plane::PosZ => seq![0int, 0, 1],
        Plane::NegZ => seq![0int, 0, -1],
    }
}

/// Return the unit normal vector for `plane`.
pub fn plane_normal(plane: Plane) -> (r: [i8; 3])
    ensures
        r@.map_values(|c: i8| c as int) == spec_plane_normal(plane),
{
    let r: [i8; 3] = match plane {
        Plane::PosX => [1, 0, 0],
        Plane::NegX => [-1, 0, 0],
        Plane::PosY => [0, 1, 0],
        Plane::NegY => [0, -1, 0],
        Plane::PosZ => [0, 0, 1],
        Plane::NegZ => [0, 0, -1],
    };
    assert(r@.map_values(|c: i8| c as int) =~= spec_plane_normal(plane));
    r
}

/// Compute the voxel-space corner of a face quad: `depth` on the normal axis,
/// `uv_min` (read as `i32`) on the tangent axes.
pub fn corner_in_world(plane: Plane, depth: i32, uv_min: [u32; 2]) -> (r: [i32; 3])
    ensures
        r@.map_values(|c: i32| c as int) == place_on_plane(
            plane,
            depth as int,
            (uv_min[0] as i32) as int,
            (uv_min[1] as i32) as int,
        ),
{
    let (n_axis, u_axis, v_axis) = plane_axes(plane);
    let mut p = [0i32; 3];
    p[n_axis] = depth;
    p[u_axis] = uv_min[0] as i32;
    p[v_axis] = uv_min[1] as i32;
    assert(p@.map_values(|c: i32| c as int) =~= place_on_plane(
        plane,
        depth as int,
        (uv_min[0] as i32) as int,
        (uv_min[1] as i32) as int,
    ));
    p
}

/// Corner `j` of a face quad in voxel space: 0 at the minimum, 1 one `geo_size[0]`
/// along U, 2 one `geo_size[1]` along V, 3 both.
pub open spec fn spec_quad_corner(f: Face, j: int) -> Seq<int> {
    let u0 = (f.geo_min[0] as i32) as int;
    let v0 = (f.geo_min[1] as i32) as int;
    let du = if j == 1 || j == 3 { f.geo_size[0] as int } else { 0 };
    let dv = if j == 2 || j == 3 { f.geo_size[1] as int } else { 0 };
    place_on_plane(f.plane, f.depth as int, u0 + du, v0 + dv)
}

/// Triangle index offsets (relative to the quad's first vertex) for a plane:
/// negative planes reverse the order so that the front face is on the -N side.
pub open spec fn spec_face_triangles(plane: Plane) -> Seq<int> {
    match plane {
        Plane::NegX | Plane::NegY | Plane::NegZ => seq![2int, 1, 0, 2, 3, 1],
        _ => seq![0int, 1, 2, 1, 3, 2],
    }
}

/// The six triangle indices of a quad whose vertices start at `base`.
pub fn face_triangles(plane: Plane, base: u32) -> (r: [u32; 6])
    requires
        base + 3 <= u32::MAX,
    ensures
        forall|t: int| 0 <= t < 6 ==> #[trigger] r@[t] == base + spec_face_triangles(plane)[t],
{
    match plane {
        Plane::NegX | Plane::NegY | Plane::NegZ => [base + 2, base + 1, base, base + 2, base + 3, base + 1],
        _ => [base, base + 1, base + 2, base + 1, base + 3, base + 2],
    }
}

/// Triangle indices and `(material, vertex_start, vertex_end)` groups of a
/// mesh with four vertices per face, faces in order.
pub struct MeshIndexBuffers {
    pub indices: Vec<u32>,
    pub material_groups: Vec<(u16, u32, u32)>,
}

/// Index buffers of the mesh of a model: face `i` owns vertices `4i..4i+4`,
/// contributes the six indices of its two triangles and one material group.
pub fn build_mesh_indices(def: &ModelDef) -> (r: MeshIndexBuffers)
    requires
        4 * def.faces@.len() <= u32::MAX,
    ensures
        r.indices@.len() == 6 * def.faces@.len(),
        r.material_groups@.len() == def.faces@.len(),
        forall|i: int, t: int|
            0 <= i < def.faces@.len() && 0 <= t < 6 ==> #[trigger] r.indices@[6 * i + t] == 4 * i
                + spec_face_triangles(def.faces@[i].plane)[t],
        forall|i: int|
            0 <= i < def.faces@.len() ==> #[trigger] r.material_groups@[i] == (
                def.faces@[i].material,
                (4 * i) as u32,
                (4 * i + 4) as u32,
            ),
{
    let mut indices: Vec<u32> = Vec::new();
    let mut material_groups: Vec<(u16, u32, u32)> = Vec::new();
    let mut i: usize = 0;
    let mut start: u32 = 0;
    while i < def.faces.len()
        invariant
            4 * def.faces@.len() <= u32::MAX,
            0 <= i <= def.faces@.len(),
            start == 4 * i,
            indices@.len() == 6 * i,
            material_groups@.len() == i,
            forall|j: int, t: int|
                0 <= j < i && 0 <= t < 6 ==> #[trigger] indices@[6 * j + t] == 4 * j
                    + spec_face_triangles(def.faces@[j].plane)[t],
            forall|j: int|
                0 <= j < i ==> #[trigger] material_groups@[j] == (
                    def.faces@[j].material,
                    (4 * j) as u32,
                    (4 * j + 4) as u32,
                ),
        decreases def.faces@.len() - i,
    {
        let face = &def.faces[i];
        let tri = face_triangles(face.plane, start);
        let ghost before = indices@;
        let mut t: usize = 0;
        while t < 6
            invariant
                0 <= i < def.faces@.len(),
                start == 4 * i,
                indices@.len() == 6 * i + t,
                0 <= t <= 6,
                forall|k: int| 0 <= k < 6 * i ==> #[trigger] indices@[k] == before[k],
                forall|k: int| 0 <= k < t ==> #[trigger] indices@[6 * i + k] == tri@[k],
            decreases 6 - t,
        {
            indices.push(tri[t]);
            t = t + 1;
        }
        material_groups.push((face.material, start, start + 4));
        proof {
            assert forall|j: int, tt: int|
                0 <= j < i + 1 && 0 <= tt < 6 implies #[trigger] indices@[6 * j + tt] == 4 * j
                    + spec_face_triangles(def.faces@[j].plane)[tt] by {
                if j < i {
                    assert(6 * j + tt < 6 * i) by (nonlinear_arith)
                        requires
                            j < i,
                            tt < 6,
                    ;
                    assert(indices@[6 * j + tt] == before[6 * j + tt]);
                } else {
                    assert(tri@[tt] == start + spec_face_triangles(def.faces@[j].plane)[tt]);
                }
            }
        }
        i = i + 1;
        start = start + 4;
    }
    MeshIndexBuffers { indices, material_groups }
}

/// Cross product of two 3-vectors.
pub open spec fn cross(a: Seq<int>, b: Seq<int>) -> Seq<int> {
    seq![a[1] * b[2] - a[2] * b[1], a[2] * b[0] - a[0] * b[2], a[0] * b[1] - a[1] * b[0]]
}

pub open spec fn dot(a: Seq<int>, b: Seq<int>) -> int {
    a[0] * b[0] + a[1] * b[1] + a[2] * b[2]
}

pub open spec fn sub3(a: Seq<int>, b: Seq<int>) -> Seq<int> {
    seq![a[0] - b[0], a[1] - b[1], a[2] - b[2]]
}

/// Winding law: for a face with a non-degenerate extent, the first triangle
/// emitted for it, taken in index order, turns counter-clockwise seen from the
/// side the plane's normal points to; its geometric normal is
/// `geo_size[0] * geo_size[1]` times the plane's unit normal.
pub proof fn law_face_winding_matches_normal(f: Face)
    requires
        f.geo_size[0] > 0,
        f.geo_size[1] > 0,
    ensures
        ({
            let tri = spec_face_triangles(f.plane);
            let p0 = spec_quad_corner(f, tri[0]);
            let p1 = spec_quad_corner(f, tri[1]);
            let p2 = spec_quad_corner(f, tri[2]);
            dot(cross(sub3(p1, p0), sub3(p2, p0)), spec_plane_normal(f.plane)) == f.geo_size[0] as int
                * f.geo_size[1] as int
        }),
        f.geo_size[0] as int * f.geo_size[1] as int > 0,
{
    let a = f.geo_size[0] as int;
    let b = f.geo_size[1] as int;
    assert(a * b > 0) by (nonlinear_arith)
        requires
            a > 0,
            b > 0,
    ;
    let tri = spec_face_triangles(f.plane);
    let p0 = spec_quad_corner(f, tri[0]);
    let p1 = spec_quad_corner(f, tri[1]);
    let p2 = spec_quad_corner(f, tri[2]);
    let e1 = sub3(p1, p0);
    let e2 = sub3(p2, p0);
    let (na, ua, va) = spec_plane_axes(f.plane);
    match f.plane {
        Plane::PosX | Plane::PosY | Plane::PosZ => {
            assert(e1[ua as int] == a && e1[va as int] == 0 && e1[na as int] == 0);
            assert(e2[ua as int] == 0 && e2[va as int] == b && e2[na as int] == 0);
        },
        _ => {
            assert(e1[ua as int] == a && e1[va as int] == -b && e1[na as int] == 0);
            assert(e2[ua as int] == 0 && e2[va as int] == -b && e2[na as int] == 0);
        },
    }
    let c = cross(e1, e2);
    assert(c[na as int] == if tri[0] == 0 { a * b } else { -(a * b) }) by (nonlinear_arith)
        requires
            c == cross(e1, e2),
            (na == 0 && ua == 1 && va == 2) || (na == 1 && ua == 2 && va == 0) || (na == 2 && ua == 0 && va == 1),
            e1[ua as int] == a,
            e1[na as int] == 0,
            e2[ua as int] == 0,
            e2[na as int] == 0,
            tri[0] == 0 ==> e1[va as int] == 0 && e2[va as int] == b,
            tri[0] != 0 ==> e1[va as int] == -b && e2[va as int] == -b,
    ;
    let nrm = spec_plane_normal(f.plane);
    let s: int = if tri[0] == 0 { 1 } else { -1 };
    assert(nrm[na as int] == s);
    assert(forall|k: int| 0 <= k < 3 && k != na ==> nrm[k] == 0);
    let x = c[na as int];
    assert(dot(c, nrm) == s * x) by (nonlinear_arith)
        requires
            0 <= na < 3,
            nrm[na as int] == s,
            x == c[na as int],
            forall|k: int| 0 <= k < 3 && k != na ==> nrm[k] == 0,
    ;
}

} // verus!
